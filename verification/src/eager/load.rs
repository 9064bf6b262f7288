//! Loading a configuration whose code is run at once.
use vstd::prelude::*;
use vstd::string::*;
use crate::config::document::entries_end;
use crate::config::evaluate::{
    agree, ends_with, extends, lemma_extends_agree, lemma_extends_twice, lua_error, reports,
    Fault, Run,
};
use crate::config::load::{part_run, put_at};
use crate::config::resolve::Log;
use crate::eager::lua::{
    eager_act, eager_context, lemma_single_run, process_single_lua_tag, single_run, Vars,
};
use crate::eager::scripts::{
    add_field_vars, answered_vars, field_vars, fields_run, hooks_run, lemma_fields_run,
    process_fields, process_hooks_lua, put_vars, take_vars, with_vars, Surroundings,
};
use crate::errors::DaemonError;
use crate::lua_eval::{
    definition_fails, fault_of, lemma_defined, seen_vars, start_fails, Act, LuaEvaluator, Order,
    Reply, Scripts, Sight,
};
use crate::name_map::NameMap;
use crate::paths::{join, seen_from};
use crate::text::{concat, concat5, opt_view, text_view, views};
use crate::value::{
    entry_trees, find_key, lemma_key_index, lemma_tree_parts, lookup, trees, untagged, Tree,
    Yaml,
};

verus! {

/// Runs the code of the path of the environment file; scripts see the variables of the system.
pub open spec fn file_stage(
    fields: Seq<(Tree, Tree)>,
    name: Seq<char>,
    dir: Seq<char>,
    sys: Vars,
    log: Log,
    from: int,
) -> Run<Seq<(Tree, Tree)>> {
    part_run(
        fields,
        "env_file"@,
        single_run(
            lookup(fields, Tree::Text("env_file"@))->0,
            dir,
            eager_act(Some(name), None, sys, seq![], sys),
            log,
            from,
        ),
    )
}

/// The path of the environment file, if it is a text.
pub open spec fn file_in(fields: Seq<(Tree, Tree)>, dir: Seq<char>) -> Option<Seq<char>> {
    match lookup(fields, Tree::Text("env_file"@)) {
        Some(Tree::Text(p)) => Some(seen_from(dir, p)),
        _ => None,
    }
}

/// What is asked to read the environment file.
pub open spec fn read_acts(fields: Seq<(Tree, Tree)>, dir: Seq<char>) -> Seq<Act> {
    match file_in(fields, dir) {
        Some(path) => seq![Act::ReadVars { path }],
        None => seq![],
    }
}

/// The variables of the environment file.
pub open spec fn file_vars(fields: Seq<(Tree, Tree)>, dir: Seq<char>, log: Log, from: int) -> Vars {
    match file_in(fields, dir) {
        Some(_) => answered_vars(log[from].1),
        None => seq![],
    }
}

/// Runs the code of the environment; scripts see the variables of the system and of the file.
pub open spec fn environment_stage(
    fields: Seq<(Tree, Tree)>,
    name: Seq<char>,
    dir: Seq<char>,
    sys: Vars,
    file: Vars,
    log: Log,
    from: int,
) -> Run<Seq<(Tree, Tree)>> {
    part_run(
        fields,
        "environment"@,
        single_run(
            lookup(fields, Tree::Text("environment"@))->0,
            dir,
            eager_act(Some(name), None, sys, file, put_vars(sys, file, file.len())),
            log,
            from,
        ),
    )
}

/// Runs the code of the environment and of the fields after it.
pub open spec fn later_stages(
    fields: Seq<(Tree, Tree)>,
    name: Seq<char>,
    dir: Seq<char>,
    sys: Vars,
    file: Vars,
    log: Log,
    from: int,
) -> Run<Seq<(Tree, Tree)>> {
    let first = environment_stage(fields, name, dir, sys, file, log, from);
    match first.end {
        Err(f) => first,
        Ok(next) => {
            let s = Surroundings {
                name: Some(name),
                sys,
                file,
                env: field_vars(put_vars(sys, file, file.len()), next),
            };
            let second = fields_run(next, next.len(), dir, s, log, from + first.acts.len());
            Run { acts: first.acts + second.acts, end: second.end }
        },
    }
}

/// Runs the code of a service: first that of the path of its environment file, which then is
/// read; then that of its environment; then that of all other fields, which see the whole
/// environment.
pub open spec fn service_stages(
    fields: Seq<(Tree, Tree)>,
    name: Seq<char>,
    dir: Seq<char>,
    sys: Vars,
    log: Log,
    from: int,
) -> Run<Seq<(Tree, Tree)>> {
    let first = file_stage(fields, name, dir, sys, log, from);
    match first.end {
        Err(f) => first,
        Ok(next) => {
            let at = from + first.acts.len();
            let asked = read_acts(next, dir);
            let file = file_vars(next, dir, log, at);
            let second = later_stages(next, name, dir, sys, file, log, at + asked.len());
            Run { acts: first.acts + asked + second.acts, end: second.end }
        },
    }
}

/// Runs the code of a service.
pub open spec fn service_lua_run(
    t: Tree,
    name: Seq<char>,
    dir: Seq<char>,
    sys: Vars,
    log: Log,
    from: int,
) -> Run<Tree> {
    match t {
        Tree::Mapping(fields) => {
            let r = service_stages(fields, name, dir, sys, log, from);
            Run {
                acts: r.acts,
                end: match r.end {
                    Ok(done) => Ok(Tree::Mapping(done)),
                    Err(f) => Err(f),
                },
            }
        },
        _ => Run { acts: seq![], end: Ok(t) },
    }
}

/// Computing the value of a key reads only the answers it asks for.
proof fn lemma_part_run(
    fields: Seq<(Tree, Tree)>,
    key: Seq<char>,
    dir: Seq<char>,
    build: Act,
    a: Log,
    b: Log,
    from: int,
)
    requires
        0 <= from,
        agree(
            a,
            b,
            from + part_run(
                fields,
                key,
                single_run(lookup(fields, Tree::Text(key))->0, dir, build, a, from),
            ).acts.len(),
        ),
    ensures
        part_run(
            fields,
            key,
            single_run(lookup(fields, Tree::Text(key))->0, dir, build, a, from),
        ) == part_run(
            fields,
            key,
            single_run(lookup(fields, Tree::Text(key))->0, dir, build, b, from),
        ),
{
    if lookup(fields, Tree::Text(key)) is Some {
        lemma_single_run(lookup(fields, Tree::Text(key))->0, dir, build, a, b, from);
    }
}

/// Running the later stages reads only the answers it asks for.
proof fn lemma_later_stages(
    fields: Seq<(Tree, Tree)>,
    name: Seq<char>,
    dir: Seq<char>,
    sys: Vars,
    file: Vars,
    a: Log,
    b: Log,
    from: int,
)
    requires
        0 <= from,
        agree(a, b, from + later_stages(fields, name, dir, sys, file, a, from).acts.len()),
    ensures
        later_stages(fields, name, dir, sys, file, a, from) == later_stages(
            fields,
            name,
            dir,
            sys,
            file,
            b,
            from,
        ),
{
    let first = environment_stage(fields, name, dir, sys, file, a, from);
    let env = put_vars(sys, file, file.len());
    lemma_part_run(
        fields,
        "environment"@,
        dir,
        eager_act(Some(name), None, sys, file, env),
        a,
        b,
        from,
    );
    if let Ok(next) = first.end {
        let s = Surroundings { name: Some(name), sys, file, env: field_vars(env, next) };
        lemma_fields_run(next, next.len(), dir, s, a, b, from + first.acts.len());
    }
}

/// Running the code of a service reads only the answers it asks for.
proof fn lemma_service_stages(
    fields: Seq<(Tree, Tree)>,
    name: Seq<char>,
    dir: Seq<char>,
    sys: Vars,
    a: Log,
    b: Log,
    from: int,
)
    requires
        0 <= from,
        agree(a, b, from + service_stages(fields, name, dir, sys, a, from).acts.len()),
    ensures
        service_stages(fields, name, dir, sys, a, from) == service_stages(
            fields,
            name,
            dir,
            sys,
            b,
            from,
        ),
{
    let first = file_stage(fields, name, dir, sys, a, from);
    lemma_part_run(
        fields,
        "env_file"@,
        dir,
        eager_act(Some(name), None, sys, seq![], sys),
        a,
        b,
        from,
    );
    if let Ok(next) = first.end {
        let at = from + first.acts.len();
        let asked = read_acts(next, dir);
        if file_in(next, dir) is Some {
            assert(a[at] == b[at]);
        }
        let file = file_vars(next, dir, a, at);
        lemma_later_stages(next, name, dir, sys, file, a, b, at + asked.len());
    }
}

/// Runs the code of the value of a key of a service, if the key is there.
fn process_part<S: Scripts>(
    fields: &mut Vec<(Yaml, Yaml)>,
    key: &str,
    name: &str,
    scripts: &mut S,
    sys_env: &NameMap<String>,
    file: &NameMap<String>,
    env: &NameMap<String>,
    config_dir: &str,
    config_path: &str,
) -> (r: Result<(), DaemonError>)
    ensures
        ({
            let all = entry_trees(old(fields)@);
            let run = part_run(
                all,
                key@,
                single_run(
                    lookup(all, Tree::Text(key@))->0,
                    config_dir@,
                    eager_act(
                        Some(name@),
                        None,
                        seen_vars(*sys_env),
                        seen_vars(*file),
                        seen_vars(*env),
                    ),
                    final(scripts).log(),
                    old(scripts).log().len() as int,
                ),
            );
            &&& extends(old(scripts).log(), final(scripts).log(), run.acts)
            &&& match r {
                Ok(_) => run.end == Ok::<Seq<(Tree, Tree)>, Fault>(entry_trees(final(fields)@)),
                Err(e) => run.end matches Err(f) && reports(e, config_path@, f),
            }
        }),
{
    let ghost all = entry_trees(fields@);
    proof {
        lemma_key_index(all, Tree::Text(key@));
    }
    if let Some(i) = find_key(fields, key) {
        assert(all[i as int].1 == fields@[i as int].1@);
        let ctx = eager_context(Some(name), None, sys_env, file, env);
        match process_single_lua_tag(&fields[i].1, scripts, &ctx, config_dir, config_path) {
            Ok(v) => {
                put_at(fields, i, v);
            },
            Err(e) => {
                return Err(e);
            },
        }
    }
    Ok(())
}

/// The path of the environment file, if it is a text.
fn find_file(fields: &Vec<(Yaml, Yaml)>, config_dir: &str) -> (r: Option<String>)
    ensures
        opt_view(r) == file_in(entry_trees(fields@), config_dir@),
{
    let ghost all = entry_trees(fields@);
    proof {
        lemma_key_index(all, Tree::Text("env_file"@));
    }
    if let Some(i) = find_key(fields, "env_file") {
        assert(all[i as int].1 == fields@[i as int].1@);
        if let Yaml::String(p) = &fields[i].1 {
            return Some(join(config_dir, p.as_str()));
        }
    }
    None
}

/// Runs the code of the environment of a service and of the fields after it.
fn process_later<S: Scripts>(
    fields: Vec<(Yaml, Yaml)>,
    name: &str,
    scripts: &mut S,
    sys_env: &NameMap<String>,
    file: &NameMap<String>,
    config_dir: &str,
    config_path: &str,
) -> (r: Result<Vec<(Yaml, Yaml)>, DaemonError>)
    ensures
        ({
            let run = later_stages(
                entry_trees(fields@),
                name@,
                config_dir@,
                seen_vars(*sys_env),
                seen_vars(*file),
                final(scripts).log(),
                old(scripts).log().len() as int,
            );
            &&& extends(old(scripts).log(), final(scripts).log(), run.acts)
            &&& entries_end(r, config_path@, run.end)
        }),
{
    let ghost start = scripts.log();
    let ghost from = start.len() as int;
    let ghost all = entry_trees(fields@);
    let ghost sys = seen_vars(*sys_env);
    let ghost fv = seen_vars(*file);
    let mut fields = fields;
    let mut env = with_vars(sys_env, file);
    process_part(
        &mut fields,
        "environment",
        name,
        scripts,
        sys_env,
        file,
        &env,
        config_dir,
        config_path,
    )?;
    let ghost middle = scripts.log();
    let ghost next = entry_trees(fields@);
    let ghost first = environment_stage(all, name@, config_dir@, sys, fv, middle, from);
    add_field_vars(&mut env, &fields);
    let r = process_fields(
        &fields,
        name,
        scripts,
        sys_env,
        file,
        &env,
        config_dir,
        config_path,
    );
    proof {
        let now = scripts.log();
        let s = Surroundings {
            name: Some(name@),
            sys,
            file: fv,
            env: field_vars(put_vars(sys, fv, fv.len()), next),
        };
        let second = fields_run(next, next.len(), config_dir@, s, now, middle.len() as int);
        lemma_extends_agree(middle, now, second.acts);
        lemma_part_run(
            all,
            "environment"@,
            config_dir@,
            eager_act(Some(name@), None, sys, fv, put_vars(sys, fv, fv.len())),
            middle,
            now,
            from,
        );
        lemma_extends_twice(start, middle, now, first.acts, second.acts);
    }
    r
}

/// Runs the code of the fields of a service, in stages.
fn process_stages<S: Scripts>(
    fields: Vec<(Yaml, Yaml)>,
    name: &str,
    scripts: &mut S,
    sys_env: &NameMap<String>,
    config_dir: &str,
    config_path: &str,
) -> (r: Result<Vec<(Yaml, Yaml)>, DaemonError>)
    ensures
        ({
            let run = service_stages(
                entry_trees(fields@),
                name@,
                config_dir@,
                seen_vars(*sys_env),
                final(scripts).log(),
                old(scripts).log().len() as int,
            );
            &&& extends(old(scripts).log(), final(scripts).log(), run.acts)
            &&& entries_end(r, config_path@, run.end)
        }),
{
    let ghost start = scripts.log();
    let ghost from = start.len() as int;
    let ghost all = entry_trees(fields@);
    let ghost sys = seen_vars(*sys_env);
    let mut fields = fields;
    let none: NameMap<String> = NameMap::new();
    assert(seen_vars(none) =~= Seq::<(Seq<char>, Sight)>::empty());
    process_part(
        &mut fields,
        "env_file",
        name,
        scripts,
        sys_env,
        &none,
        sys_env,
        config_dir,
        config_path,
    )?;
    let ghost l1 = scripts.log();
    let ghost next = entry_trees(fields@);
    let ghost first = file_stage(all, name@, config_dir@, sys, l1, from);
    let ghost asked = read_acts(next, config_dir@);
    let file = match find_file(&fields, config_dir) {
        Some(path) => take_vars(scripts.perform(Order::ReadVars { path: path.as_str() })),
        None => none,
    };
    let ghost l2 = scripts.log();
    proof {
        assert(extends(l1, l2, asked));
        assert(seen_vars(file) == file_vars(next, config_dir@, l2, l1.len() as int));
    }
    let r = process_later(fields, name, scripts, sys_env, &file, config_dir, config_path);
    proof {
        let now = scripts.log();
        let fv = seen_vars(file);
        let second = later_stages(next, name@, config_dir@, sys, fv, now, l2.len() as int);
        lemma_extends_agree(l2, now, second.acts);
        lemma_extends_twice(start, l1, l2, first.acts, asked);
        lemma_extends_twice(start, l2, now, first.acts + asked, second.acts);
        assert(agree(l1, now, l1.len() as int)) by {
            assert forall|k: int| 0 <= k < l1.len() implies #[trigger] l1[k] == now[k] by {
                assert(l2[k] == l1[k]);
            }
        }
        lemma_part_run(
            all,
            "env_file"@,
            config_dir@,
            eager_act(Some(name@), None, sys, seq![], sys),
            l1,
            now,
            from,
        );
        if file_in(next, config_dir@) is Some {
            assert(now[l1.len() as int] == l2[l1.len() as int]);
        }
        assert(file_vars(next, config_dir@, now, l1.len() as int) == fv);
    }
    r
}

/// Runs the code of a service.
pub fn process_service_lua<S: Scripts>(
    service_value: &Yaml,
    service_name: &str,
    scripts: &mut S,
    sys_env: &NameMap<String>,
    config_dir: &str,
    config_path: &str,
) -> (r: Result<Yaml, DaemonError>)
    ensures
        ({
            let run = service_lua_run(
                service_value@,
                service_name@,
                config_dir@,
                seen_vars(*sys_env),
                final(scripts).log(),
                old(scripts).log().len() as int,
            );
            &&& extends(old(scripts).log(), final(scripts).log(), run.acts)
            &&& ends_with(r, config_path@, run.end)
        }),
{
    broadcast use lemma_tree_parts;

    let copy = service_value.copy();
    match copy {
        Yaml::Mapping(fields) => {
            match process_stages(
                fields,
                service_name,
                scripts,
                sys_env,
                config_dir,
                config_path,
            ) {
                Ok(list) => Ok(Yaml::Mapping(list)),
                Err(e) => Err(e),
            }
        },
        other => Ok(other),
    }
}

/// Runs the code of the first `n` services. A service whose key is no text is left as it is.
pub open spec fn services_lua_run(
    services: Seq<(Tree, Tree)>,
    n: nat,
    dir: Seq<char>,
    sys: Vars,
    log: Log,
    from: int,
) -> Run<Seq<(Tree, Tree)>>
    decreases n,
{
    if n == 0 || n > services.len() {
        Run { acts: seq![], end: Ok(seq![]) }
    } else {
        let front = services_lua_run(services, (n - 1) as nat, dir, sys, log, from);
        match front.end {
            Err(f) => front,
            Ok(done) => match services[n - 1].0 {
                Tree::Text(name) => {
                    let r = service_lua_run(
                        services[n - 1].1,
                        name,
                        dir,
                        sys,
                        log,
                        from + front.acts.len(),
                    );
                    Run {
                        acts: front.acts + r.acts,
                        end: match r.end {
                            Ok(t) => Ok(done.push((services[n - 1].0, t))),
                            Err(f) => Err(f),
                        },
                    }
                },
                _ => Run { acts: front.acts, end: Ok(done.push(services[n - 1])) },
            },
        }
    }
}

/// Runs the code of the services, if they are a mapping.
pub open spec fn all_services_run(
    t: Tree,
    dir: Seq<char>,
    sys: Vars,
    log: Log,
    from: int,
) -> Run<Tree> {
    match t {
        Tree::Mapping(services) => {
            let r = services_lua_run(services, services.len(), dir, sys, log, from);
            Run {
                acts: r.acts,
                end: match r.end {
                    Ok(done) => Ok(Tree::Mapping(done)),
                    Err(f) => Err(f),
                },
            }
        },
        _ => Run { acts: seq![], end: Ok(t) },
    }
}

/// Runs the code of the services in the entries at the root.
pub open spec fn services_stage(
    entries: Seq<(Tree, Tree)>,
    dir: Seq<char>,
    sys: Vars,
    log: Log,
    from: int,
) -> Run<Seq<(Tree, Tree)>> {
    part_run(
        entries,
        "services"@,
        all_services_run(
            lookup(entries, Tree::Text("services"@))->0,
            dir,
            sys,
            log,
            from,
        ),
    )
}

/// What the scripts of global hooks see: the variables of the system.
pub open spec fn global_surroundings(sys: Vars) -> Surroundings {
    Surroundings { name: None, sys, file: seq![], env: sys }
}

/// Runs the code in the entries at the root: that of the services, and then that of the global
/// hooks.
pub open spec fn root_stages(
    entries: Seq<(Tree, Tree)>,
    dir: Seq<char>,
    sys: Vars,
    log: Log,
    from: int,
) -> Run<Seq<(Tree, Tree)>> {
    let first = services_stage(entries, dir, sys, log, from);
    match first.end {
        Err(f) => first,
        Ok(next) => {
            let second = part_run(
                next,
                "hooks"@,
                hooks_run(
                    lookup(next, Tree::Text("hooks"@))->0,
                    dir,
                    global_surroundings(sys),
                    log,
                    from + first.acts.len(),
                ),
            );
            Run { acts: first.acts + second.acts, end: second.end }
        },
    }
}

/// Runs the code of a configuration.
pub open spec fn lua_scripts_run(
    t: Tree,
    dir: Seq<char>,
    sys: Vars,
    log: Log,
    from: int,
) -> Run<Tree> {
    match t {
        Tree::Mapping(entries) => {
            let r = root_stages(entries, dir, sys, log, from);
            Run {
                acts: r.acts,
                end: match r.end {
                    Ok(done) => Ok(Tree::Mapping(done)),
                    Err(f) => Err(f),
                },
            }
        },
        _ => Run { acts: seq![], end: Ok(t) },
    }
}

proof fn lemma_services_lua_run(
    services: Seq<(Tree, Tree)>,
    n: nat,
    dir: Seq<char>,
    sys: Vars,
    a: Log,
    b: Log,
    from: int,
)
    requires
        0 <= from,
        agree(a, b, from + services_lua_run(services, n, dir, sys, a, from).acts.len()),
    ensures
        services_lua_run(services, n, dir, sys, a, from) == services_lua_run(
            services,
            n,
            dir,
            sys,
            b,
            from,
        ),
    decreases n,
{
    if n > 0 && n <= services.len() {
        lemma_services_lua_run(services, (n - 1) as nat, dir, sys, a, b, from);
        let front = services_lua_run(services, (n - 1) as nat, dir, sys, a, from);
        if front.end is Ok {
            if let Tree::Text(name) = services[n - 1].0 {
                if let Tree::Mapping(fields) = services[n - 1].1 {
                    lemma_service_stages(fields, name, dir, sys, a, b, from + front.acts.len());
                }
            }
        }
    }
}

proof fn lemma_services_stop(
    services: Seq<(Tree, Tree)>,
    n: nat,
    dir: Seq<char>,
    sys: Vars,
    log: Log,
    from: int,
)
    requires
        n <= services.len(),
        services_lua_run(services, n, dir, sys, log, from).end is Err,
    ensures
        services_lua_run(services, services.len(), dir, sys, log, from) == services_lua_run(
            services,
            n,
            dir,
            sys,
            log,
            from,
        ),
    decreases services.len() - n,
{
    if n < services.len() {
        lemma_services_stop(services, n + 1, dir, sys, log, from);
    }
}

/// Runs the code of the services, if they are a mapping.
fn process_services<S: Scripts>(
    value: &Yaml,
    scripts: &mut S,
    sys_env: &NameMap<String>,
    config_dir: &str,
    config_path: &str,
) -> (r: Result<Yaml, DaemonError>)
    ensures
        ({
            let run = all_services_run(
                value@,
                config_dir@,
                seen_vars(*sys_env),
                final(scripts).log(),
                old(scripts).log().len() as int,
            );
            &&& extends(old(scripts).log(), final(scripts).log(), run.acts)
            &&& ends_with(r, config_path@, run.end)
        }),
{
    broadcast use lemma_tree_parts;

    match value {
        Yaml::Mapping(entries) => {
            let ghost all = entry_trees(entries@);
            let ghost sys = seen_vars(*sys_env);
            let ghost start = scripts.log();
            let ghost from = start.len() as int;
            let mut out: Vec<(Yaml, Yaml)> = Vec::new();
            let mut i: usize = 0;
            assert(entry_trees(out@) == Seq::<(Tree, Tree)>::empty());
            while i < entries.len()
                invariant
                    i <= entries@.len(),
                    all == entry_trees(entries@),
                    value@ == Tree::Mapping(all),
                    sys == seen_vars(*sys_env),
                    start == old(scripts).log(),
                    from == start.len(),
                    ({
                        let run = services_lua_run(
                            all,
                            i as nat,
                            config_dir@,
                            sys,
                            scripts.log(),
                            from,
                        );
                        &&& extends(start, scripts.log(), run.acts)
                        &&& run.end == Ok::<Seq<(Tree, Tree)>, Fault>(entry_trees(out@))
                    }),
                decreases entries@.len() - i,
            {
                let ghost before = scripts.log();
                let ghost done = entry_trees(out@);
                let ghost front = services_lua_run(all, i as nat, config_dir@, sys, before, from);
                assert(all[i as int] == (entries@[i as int].0@, entries@[i as int].1@));
                let key = entries[i].0.copy();
                let service = match &entries[i].0 {
                    Yaml::String(name) => {
                        let r = process_service_lua(
                            &entries[i].1,
                            name.as_str(),
                            scripts,
                            sys_env,
                            config_dir,
                            config_path,
                        );
                        proof {
                            let now = scripts.log();
                            let run = service_lua_run(
                                all[i as int].1,
                                name@,
                                config_dir@,
                                sys,
                                now,
                                before.len() as int,
                            );
                            lemma_extends_agree(before, now, run.acts);
                            lemma_services_lua_run(
                                all,
                                i as nat,
                                config_dir@,
                                sys,
                                before,
                                now,
                                from,
                            );
                            lemma_extends_twice(start, before, now, front.acts, run.acts);
                        }
                        match r {
                            Ok(v) => v,
                            Err(e) => {
                                proof {
                                    lemma_services_stop(
                                        all,
                                        (i + 1) as nat,
                                        config_dir@,
                                        sys,
                                        scripts.log(),
                                        from,
                                    );
                                }
                                return Err(e);
                            },
                        }
                    },
                    _ => entries[i].1.copy(),
                };
                out.push((key, service));
                assert(entry_trees(out@) == done.push((key@, service@)));
                i += 1;
            }
            Ok(Yaml::Mapping(out))
        },
        _ => Ok(value.copy()),
    }
}

/// Runs the code in the entries at the root.
fn process_root<S: Scripts>(
    entries: &mut Vec<(Yaml, Yaml)>,
    scripts: &mut S,
    sys_env: &NameMap<String>,
    config_dir: &str,
    config_path: &str,
) -> (r: Result<(), DaemonError>)
    ensures
        ({
            let run = root_stages(
                entry_trees(old(entries)@),
                config_dir@,
                seen_vars(*sys_env),
                final(scripts).log(),
                old(scripts).log().len() as int,
            );
            &&& extends(old(scripts).log(), final(scripts).log(), run.acts)
            &&& match r {
                Ok(_) => run.end == Ok::<Seq<(Tree, Tree)>, Fault>(entry_trees(final(entries)@)),
                Err(e) => run.end matches Err(f) && reports(e, config_path@, f),
            }
        }),
{
    let ghost start = scripts.log();
    let ghost from = start.len() as int;
    let ghost sys = seen_vars(*sys_env);
    let ghost all = entry_trees(entries@);
    proof {
        lemma_key_index(all, Tree::Text("services"@));
    }
    if let Some(i) = find_key(entries, "services") {
        assert(all[i as int].1 == entries@[i as int].1@);
        match process_services(&entries[i].1, scripts, sys_env, config_dir, config_path) {
            Ok(v) => {
                put_at(entries, i, v);
            },
            Err(e) => {
                return Err(e);
            },
        }
    }
    let ghost middle = scripts.log();
    let ghost first = services_stage(all, config_dir@, sys, middle, from);
    let ghost next = entry_trees(entries@);
    assert(first.end == Ok::<Seq<(Tree, Tree)>, Fault>(next));
    assert(extends(start, middle, first.acts));
    proof {
        lemma_key_index(next, Tree::Text("hooks"@));
    }
    if let Some(i) = find_key(entries, "hooks") {
        assert(next[i as int].1 == entries@[i as int].1@);
        let none: NameMap<String> = NameMap::new();
        assert(seen_vars(none) =~= Seq::<(Seq<char>, Sight)>::empty());
        let r = process_hooks_lua(
            &entries[i].1,
            None,
            scripts,
            sys_env,
            &none,
            sys_env,
            config_dir,
            config_path,
        );
        proof {
            let now = scripts.log();
            let run = hooks_run(
                next[i as int].1,
                config_dir@,
                global_surroundings(sys),
                now,
                middle.len() as int,
            );
            lemma_extends_agree(middle, now, run.acts);
            if let Some(Tree::Mapping(services)) = lookup(all, Tree::Text("services"@)) {
                lemma_services_lua_run(
                    services,
                    services.len(),
                    config_dir@,
                    sys,
                    middle,
                    now,
                    from,
                );
            }
            assert(services_stage(all, config_dir@, sys, now, from) == first);
            lemma_extends_twice(start, middle, now, first.acts, run.acts);
        }
        match r {
            Ok(v) => {
                put_at(entries, i, v);
            },
            Err(e) => {
                return Err(e);
            },
        }
    } else {
        assert(first.acts + Seq::<Act>::empty() =~= first.acts);
    }
    Ok(())
}

/// Runs the code of a configuration: that of the services, and then that of the global hooks. The
/// definitions of the configuration must be loaded already.
pub fn process_lua_scripts<S: Scripts>(
    value: &Yaml,
    scripts: &mut S,
    sys_env: &NameMap<String>,
    config_dir: &str,
    config_path: &str,
) -> (r: Result<Yaml, DaemonError>)
    ensures
        ({
            let run = lua_scripts_run(
                value@,
                config_dir@,
                seen_vars(*sys_env),
                final(scripts).log(),
                old(scripts).log().len() as int,
            );
            &&& extends(old(scripts).log(), final(scripts).log(), run.acts)
            &&& ends_with(r, config_path@, run.end)
        }),
{
    broadcast use lemma_tree_parts;

    let mut copy = value.copy();
    if let Yaml::Mapping(entries) = &mut copy {
        process_root(entries, scripts, sys_env, config_dir, config_path)?;
    }
    Ok(copy)
}

/// The texts in a list, each seen from a directory; what is no text is left out.
pub open spec fn paths_in(items: Seq<Tree>, n: nat, dir: Seq<char>) -> Seq<Seq<char>>
    decreases n,
{
    if n == 0 || n > items.len() {
        seq![]
    } else {
        let before = paths_in(items, (n - 1) as nat, dir);
        match untagged(items[n - 1]) {
            Tree::Text(p) => before.push(seen_from(dir, p)),
            _ => before,
        }
    }
}

/// The code that a configuration holds itself.
pub open spec fn inline_code(t: Tree) -> Option<Seq<char>> {
    match t {
        Tree::Mapping(entries) => crate::config::reading::code_of(entries),
        _ => None,
    }
}

/// The files with code that a configuration names.
pub open spec fn imports_of(t: Tree, dir: Seq<char>) -> Seq<Seq<char>> {
    match t {
        Tree::Mapping(entries) => match lookup(entries, Tree::Text("lua_import"@)) {
            Some(list) => match untagged(list) {
                Tree::Sequence(items) => paths_in(items, items.len(), dir),
                _ => seq![],
            },
            None => seq![],
        },
        _ => seq![],
    }
}

/// The code that a configuration holds itself, and the files with code that it names.
pub fn lua_sources(root: &Yaml, config_dir: &str) -> (r: (Option<String>, Vec<String>))
    ensures
        opt_view(r.0) == inline_code(root@),
        views(r.1@) == imports_of(root@, config_dir@),
{
    broadcast use lemma_tree_parts;

    let mut code: Option<String> = None;
    let mut files: Vec<String> = Vec::new();
    assert(views(files@) == Seq::<Seq<char>>::empty());
    if let Yaml::Mapping(entries) = root {
        let ghost all = entry_trees(entries@);
        proof {
            lemma_key_index(all, Tree::Text("lua"@));
            lemma_key_index(all, Tree::Text("lua_import"@));
        }
        if let Some(i) = find_key(entries, "lua") {
            assert(all[i as int].1 == entries@[i as int].1@);
            if let Some(text) = entries[i].1.as_str() {
                code = Some(text.to_owned());
            }
        }
        if let Some(i) = find_key(entries, "lua_import") {
            assert(all[i as int].1 == entries@[i as int].1@);
            if let Yaml::Sequence(items) = entries[i].1.untag() {
                let ghost list = trees(items@);
                let mut k: usize = 0;
                while k < items.len()
                    invariant
                        k <= items@.len(),
                        list == trees(items@),
                        views(files@) == paths_in(list, k as nat, config_dir@),
                    decreases items@.len() - k,
                {
                    assert(list[k as int] == items@[k as int]@);
                    let ghost before = views(files@);
                    if let Some(p) = items[k].as_str() {
                        let path = join(config_dir, p);
                        files.push(path);
                        assert(views(files@) == before.push(path@));
                    }
                    k += 1;
                }
            }
        }
    }
    (code, files)
}

/// Whether an error says that code could not be loaded.
pub open spec fn load_fails(e: DaemonError, path: Seq<char>, what: Seq<char>, m: Seq<char>) -> bool {
    reports(e, path, Fault::Lua(what + m))
}

/// The code that a configuration holds itself, and then that of the first `n` files, with what
/// its errors name as the place.
pub open spec fn code_in(
    code: Option<Seq<char>>,
    files: Seq<(Seq<char>, Result<Seq<char>, Seq<char>>)>,
    n: nat,
) -> Seq<(Seq<char>, Seq<char>)>
    decreases n,
{
    if n == 0 || n > files.len() {
        match code {
            Some(c) => seq![(c, "lua"@)],
            None => seq![],
        }
    } else {
        code_in(code, files, (n - 1) as nat).push((files[n - 1].1->Ok_0, files[n - 1].0))
    }
}

/// The views of files and their texts.
pub open spec fn file_views(files: Seq<(String, Result<String, String>)>) -> Seq<
    (Seq<char>, Result<Seq<char>, Seq<char>>),
> {
    files.map_values(
        |f: (String, Result<String, String>)|
            (
                f.0@,
                match f.1 {
                    Ok(t) => Ok::<Seq<char>, Seq<char>>(t@),
                    Err(m) => Err(m@),
                },
            ),
    )
}

/// Whether loading the code of a configuration may fail with this error: no interpreter, code of
/// its own that fails, or a file that comes first among those that cannot be read or whose code
/// fails.
pub open spec fn evaluator_fails(
    code: Option<Seq<char>>,
    files: Seq<(Seq<char>, Result<Seq<char>, Seq<char>>)>,
    path: Seq<char>,
    e: DaemonError,
) -> bool {
    ||| exists|m: Seq<char>| start_fails(m) && #[trigger] load_fails(e, path, ""@, m)
    ||| code matches Some(c) && exists|m: Seq<char>|
        definition_fails(seq![], c, "lua"@, m) && #[trigger] load_fails(
            e,
            path,
            "Error in lua: block: "@,
            m,
        )
    ||| exists|i: int, m: Seq<char>|
        {
            &&& 0 <= i < files.len()
            &&& forall|j: int| 0 <= j < i ==> (#[trigger] files[j]).1 is Ok
            &&& #[trigger] load_fails(e, path, "Error loading "@ + files[i].0 + ": "@, m)
            &&& match files[i].1 {
                Ok(text) => definition_fails(code_in(code, files, i as nat), text, files[i].0, m),
                Err(why) => m == why,
            }
        }
}

/// An interpreter with the code of a configuration: the code that it holds itself, and then the
/// code of the files that it names, given their texts. A file that cannot be read is an error.
pub fn load_evaluator(
    code: Option<&str>,
    files: &Vec<(String, Result<String, String>)>,
    config_path: &str,
) -> (r: Result<LuaEvaluator, DaemonError>)
    ensures
        match r {
            Ok(e) => {
                &&& forall|i: int| 0 <= i < files@.len() ==> (#[trigger] files@[i]).1 is Ok
                &&& e.ready_with(code_in(text_view(code), file_views(files@), files@.len()))
            },
            Err(e) => evaluator_fails(text_view(code), file_views(files@), config_path@, e),
        },
{
    let ghost own = text_view(code);
    let ghost all = file_views(files@);
    let mut evaluator = match LuaEvaluator::new() {
        Ok(e) => e,
        Err(m) => {
            let e = lua_error(config_path, m);
            proof {
                reveal_strlit("");
                assert(""@ + m@ =~= m@);
                assert(load_fails(e, config_path@, ""@, m@));
            }
            return Err(e);
        },
    };
    let ghost fresh = evaluator;
    if let Some(text) = code {
        let done = evaluator.load_inline(text);
        proof {
            lemma_defined(fresh, evaluator, seq![], text@, "lua"@, fault_of(done));
            assert(seq![].push((text@, "lua"@)) =~= code_in(own, all, 0));
        }
        if let Err(m) = done {
            let e = lua_error(config_path, concat("Error in lua: block: ", m.as_str()));
            assert(load_fails(e, config_path@, "Error in lua: block: "@, m@));
            return Err(e);
        }
    }
    let mut i: usize = 0;
    while i < files.len()
        invariant
            i <= files@.len(),
            own == text_view(code),
            all == file_views(files@),
            evaluator.ready_with(code_in(own, all, i as nat)),
            forall|j: int| 0 <= j < i ==> (#[trigger] files@[j]).1 is Ok,
        decreases files@.len() - i,
    {
        let path = files[i].0.as_str();
        let ghost before = evaluator;
        let done = match &files[i].1 {
            Ok(text) => evaluator.load_file(path, text.as_str()),
            Err(m) => Err(m.clone()),
        };
        proof {
            if let Ok(text) = files@[i as int].1 {
                lemma_defined(
                    before,
                    evaluator,
                    code_in(own, all, i as nat),
                    text@,
                    path@,
                    fault_of(done),
                );
            }
        }
        if let Err(m) = done {
            let text = concat5("Error loading ", path, ": ", m.as_str(), "");
            let e = lua_error(config_path, text);
            proof {
                reveal_strlit("");
                assert(text@ =~= "Error loading "@ + files@[i as int].0@ + ": "@ + m@);
                assert(all[i as int].0 == path@);
                assert(load_fails(
                    e,
                    config_path@,
                    "Error loading "@ + all[i as int].0 + ": "@,
                    m@,
                ));
                assert forall|j: int| 0 <= j < i implies (#[trigger] all[j]).1 is Ok by {
                    assert(files@[j].1 is Ok);
                }
                assert(evaluator_fails(own, all, config_path@, e));
            }
            return Err(e);
        }
        i += 1;
    }
    Ok(evaluator)
}

} // verus!
