//! Code in a configuration that is run when the configuration is loaded.
use vstd::prelude::*;
use vstd::string::*;
use crate::config::evaluate::{
    agree, build_act, ends_with, extends, lemma_extends_agree, lemma_extends_twice, lua_error,
    typed_end, Fault, Run,
};
use crate::config::load::copy_vars;
use crate::config::lua::lua_to_yaml;
use crate::config::resolve::Log;
use crate::errors::DaemonError;
use crate::lua_eval::{
    seen_vars, Act, EvalContext, Form, Order, Reply, Scripts, ServiceEvalContext, Sight,
};
use crate::lua_value::{interpolated, lua_value_to_string};
use crate::name_map::NameMap;
use crate::paths::{join, seen_from};
use crate::text::{concat, concat5, same};
use crate::value::{entry_trees, lemma_tree_parts, trees, untagged, Tree, Yaml};

verus! {

/// Variables as a script sees them, in order.
pub type Vars = Seq<(Seq<char>, Sight)>;

/// What scripts see of a service or a hook: its name, the variables of the system, those of the
/// environment file, and the environment.
pub open spec fn seen_part(name: Seq<char>, sys: Vars, file: Vars, env: Sight) -> Sight {
    Sight::Names(
        seq![
            ("name"@, Sight::Text(name)),
            ("raw_env"@, Sight::Names(sys)),
            ("env_file"@, Sight::Names(file)),
            ("env"@, env),
        ],
    )
}

/// What scripts see while a configuration is loaded.
pub open spec fn eager_act(
    service: Option<Seq<char>>,
    hook: Option<Seq<char>>,
    sys: Vars,
    file: Vars,
    env: Vars,
) -> Act {
    Act::Build {
        scene: seq![
            ("env"@, Sight::Active),
            (
                "service"@,
                match service {
                    Some(name) => seen_part(
                        name,
                        sys,
                        file,
                        if hook is None {
                            Sight::Active
                        } else {
                            Sight::Names(env)
                        },
                    ),
                    None => Sight::Nil,
                },
            ),
            (
                "hook"@,
                match hook {
                    Some(name) => seen_part(name, sys, file, Sight::Active),
                    None => Sight::Nil,
                },
            ),
            ("deps"@, Sight::Names(seq![])),
            ("kepler"@, Sight::Names(seq![("env"@, Sight::Names(sys))])),
        ],
        vars: env,
        open: false,
    }
}

/// The text of an optional text.
pub open spec fn name_of(s: Option<&str>) -> Option<Seq<char>> {
    match s {
        Some(t) => Some(t@),
        None => None,
    }
}

/// A part of a context.
fn context_part(
    name: Option<&str>,
    sys: &NameMap<String>,
    file: &NameMap<String>,
    env: &NameMap<String>,
) -> (r: Option<ServiceEvalContext>)
    ensures
        match r {
            Some(s) => name is Some && s.name@ == name->0@ && seen_vars(s.raw_env) == seen_vars(
                *sys,
            ) && seen_vars(s.env_file) == seen_vars(*file) && seen_vars(s.env) == seen_vars(*env),
            None => name is None,
        },
{
    match name {
        Some(n) => Some(
            ServiceEvalContext {
                name: n.to_owned(),
                raw_env: copy_vars(sys),
                env_file: copy_vars(file),
                env: copy_vars(env),
            },
        ),
        None => None,
    }
}

/// The context of scripts while a configuration is loaded.
pub fn eager_context(
    service: Option<&str>,
    hook: Option<&str>,
    sys: &NameMap<String>,
    file: &NameMap<String>,
    env: &NameMap<String>,
) -> (r: EvalContext)
    ensures
        build_act(r, false) == eager_act(
            name_of(service),
            name_of(hook),
            seen_vars(*sys),
            seen_vars(*file),
            seen_vars(*env),
        ),
{
    let r = EvalContext {
        service: context_part(service, sys, file, env),
        hook: context_part(hook, sys, file, env),
        deps: NameMap::new(),
        kepler_env: copy_vars(sys),
        env_file: copy_vars(file),
        env: copy_vars(env),
    };
    proof {
        lemma_no_deps(r.deps);
        let a = build_act(r, false);
        let b = eager_act(
            name_of(service),
            name_of(hook),
            seen_vars(*sys),
            seen_vars(*file),
            seen_vars(*env),
        );
        assert(a->scene =~= b->scene);
    }
    r
}

proof fn lemma_no_deps(d: NameMap<crate::lua_eval::DepInfo>)
    requires
        d.keys().len() == 0,
    ensures
        crate::lua_eval::seen_deps(d) == Seq::<(Seq<char>, Sight)>::empty(),
{
    assert(crate::lua_eval::seen_deps(d) =~= Seq::<(Seq<char>, Sight)>::empty());
}

/// That a script failed.
pub open spec fn script_fault(m: Seq<char>) -> Fault {
    Fault::Lua("Lua error: "@ + m)
}

/// Lets scripts see `build` and runs code.
pub open spec fn code_run(code: Seq<char>, build: Act, log: Log, from: int) -> Run<Tree> {
    match log[from].1 {
        Reply::Fault(m) => Run { acts: seq![build], end: Err(script_fault(m)) },
        Reply::Value(_) => Run {
            acts: seq![build, Act::Run { form: Form::Block, code, chunk: "lua"@ }],
            end: typed_end(log[from + 1].1, |m: Seq<char>| script_fault(m)),
        },
    }
}

/// Whether a tag stands for code.
pub open spec fn is_code_tag(tag: Seq<char>) -> bool {
    tag == "lua"@ || tag == "lua_file"@
}

/// Runs the code of a tag: the code itself, or the code of a file whose path is seen from the
/// directory of the configuration.
pub open spec fn tag_run(
    tag: Seq<char>,
    t: Tree,
    dir: Seq<char>,
    build: Act,
    log: Log,
    from: int,
) -> Run<Tree> {
    if tag == "lua_file"@ {
        match untagged(t) {
            Tree::Text(p) => {
                let path = seen_from(dir, p);
                match log[from].1 {
                    Reply::Fault(m) => Run {
                        acts: seq![Act::Read { path }],
                        end: Err(Fault::Lua("Failed to read "@ + path + ": "@ + m)),
                    },
                    Reply::Value(v) => {
                        let r = code_run(interpolated(v), build, log, from + 1);
                        Run { acts: seq![Act::Read { path }] + r.acts, end: r.end }
                    },
                }
            },
            _ => Run {
                acts: seq![],
                end: Err(Fault::Lua("!lua_file value must be a string path"@)),
            },
        }
    } else {
        match untagged(t) {
            Tree::Text(code) => code_run(code, build, log, from),
            _ => Run { acts: seq![], end: Err(Fault::Lua("!lua value must be a string"@)) },
        }
    }
}

/// Runs the code of a value, if the value itself is code.
pub open spec fn single_run(t: Tree, dir: Seq<char>, build: Act, log: Log, from: int) -> Run<
    Tree,
> {
    match t {
        Tree::Tagged(tag, inner) => if is_code_tag(tag) {
            tag_run(tag, *inner, dir, build, log, from)
        } else {
            Run { acts: seq![], end: Ok(t) }
        },
        _ => Run { acts: seq![], end: Ok(t) },
    }
}

/// Runs the code in a tree. What stands under another tag is left as it is.
pub open spec fn tags_run(t: Tree, dir: Seq<char>, build: Act, log: Log, from: int) -> Run<Tree>
    decreases t, 0nat,
{
    match t {
        Tree::Sequence(items) => {
            let r = item_tags_run(items, items.len(), dir, build, log, from);
            Run {
                acts: r.acts,
                end: match r.end {
                    Ok(v) => Ok(Tree::Sequence(v)),
                    Err(f) => Err(f),
                },
            }
        },
        Tree::Mapping(entries) => {
            let r = entry_tags_run(entries, entries.len(), dir, build, log, from);
            Run {
                acts: r.acts,
                end: match r.end {
                    Ok(v) => Ok(Tree::Mapping(v)),
                    Err(f) => Err(f),
                },
            }
        },
        _ => single_run(t, dir, build, log, from),
    }
}

/// Runs the code in the first `n` items of a sequence.
pub open spec fn item_tags_run(
    items: Seq<Tree>,
    n: nat,
    dir: Seq<char>,
    build: Act,
    log: Log,
    from: int,
) -> Run<Seq<Tree>>
    decreases items, n,
{
    if n == 0 || n > items.len() {
        Run { acts: seq![], end: Ok(seq![]) }
    } else {
        let front = item_tags_run(items, (n - 1) as nat, dir, build, log, from);
        match front.end {
            Err(f) => front,
            Ok(done) => {
                let r = tags_run(items[n - 1], dir, build, log, from + front.acts.len());
                Run {
                    acts: front.acts + r.acts,
                    end: match r.end {
                        Ok(v) => Ok(done.push(v)),
                        Err(f) => Err(f),
                    },
                }
            },
        }
    }
}

/// Runs the code in the values of the first `n` entries of a mapping.
pub open spec fn entry_tags_run(
    entries: Seq<(Tree, Tree)>,
    n: nat,
    dir: Seq<char>,
    build: Act,
    log: Log,
    from: int,
) -> Run<Seq<(Tree, Tree)>>
    decreases entries, n,
{
    if n == 0 || n > entries.len() {
        Run { acts: seq![], end: Ok(seq![]) }
    } else {
        let front = entry_tags_run(entries, (n - 1) as nat, dir, build, log, from);
        match front.end {
            Err(f) => front,
            Ok(done) => {
                let r = tags_run(entries[n - 1].1, dir, build, log, from + front.acts.len());
                Run {
                    acts: front.acts + r.acts,
                    end: match r.end {
                        Ok(v) => Ok(done.push((entries[n - 1].0, v))),
                        Err(f) => Err(f),
                    },
                }
            },
        }
    }
}

/// Running the code of a value reads only the answers it asks for.
pub proof fn lemma_single_run(t: Tree, dir: Seq<char>, build: Act, a: Log, b: Log, from: int)
    requires
        0 <= from,
        agree(a, b, from + single_run(t, dir, build, a, from).acts.len()),
    ensures
        single_run(t, dir, build, a, from) == single_run(t, dir, build, b, from),
{
    if let Tree::Tagged(tag, inner) = t {
        if is_code_tag(tag) {
            if let Tree::Text(s) = untagged(*inner) {
                assert(a[from] == b[from]);
                if tag == "lua_file"@ {
                    if a[from].1 is Value {
                        assert(a[from + 1] == b[from + 1]);
                        if a[from + 1].1 is Value {
                            assert(a[from + 2] == b[from + 2]);
                        }
                    }
                } else {
                    if a[from].1 is Value {
                        assert(a[from + 1] == b[from + 1]);
                    }
                }
            }
        }
    }
}

/// Running the code in a tree reads only the answers it asks for.
pub proof fn lemma_tags_run(t: Tree, dir: Seq<char>, build: Act, a: Log, b: Log, from: int)
    requires
        0 <= from,
        agree(a, b, from + tags_run(t, dir, build, a, from).acts.len()),
    ensures
        tags_run(t, dir, build, a, from) == tags_run(t, dir, build, b, from),
    decreases t, 0nat,
{
    match t {
        Tree::Sequence(items) => {
            lemma_item_tags_run(items, items.len(), dir, build, a, b, from);
        },
        Tree::Mapping(entries) => {
            lemma_entry_tags_run(entries, entries.len(), dir, build, a, b, from);
        },
        _ => {
            lemma_single_run(t, dir, build, a, b, from);
        },
    }
}

/// Running the code in items reads only the answers it asks for.
pub proof fn lemma_item_tags_run(
    items: Seq<Tree>,
    n: nat,
    dir: Seq<char>,
    build: Act,
    a: Log,
    b: Log,
    from: int,
)
    requires
        0 <= from,
        agree(a, b, from + item_tags_run(items, n, dir, build, a, from).acts.len()),
    ensures
        item_tags_run(items, n, dir, build, a, from) == item_tags_run(
            items,
            n,
            dir,
            build,
            b,
            from,
        ),
    decreases items, n,
{
    if n > 0 && n <= items.len() {
        lemma_item_tags_run(items, (n - 1) as nat, dir, build, a, b, from);
        let front = item_tags_run(items, (n - 1) as nat, dir, build, a, from);
        if front.end is Ok {
            lemma_tags_run(items[n - 1], dir, build, a, b, from + front.acts.len());
        }
    }
}

/// Running the code in entries reads only the answers it asks for.
pub proof fn lemma_entry_tags_run(
    entries: Seq<(Tree, Tree)>,
    n: nat,
    dir: Seq<char>,
    build: Act,
    a: Log,
    b: Log,
    from: int,
)
    requires
        0 <= from,
        agree(a, b, from + entry_tags_run(entries, n, dir, build, a, from).acts.len()),
    ensures
        entry_tags_run(entries, n, dir, build, a, from) == entry_tags_run(
            entries,
            n,
            dir,
            build,
            b,
            from,
        ),
    decreases entries, n,
{
    if n > 0 && n <= entries.len() {
        lemma_entry_tags_run(entries, (n - 1) as nat, dir, build, a, b, from);
        let front = entry_tags_run(entries, (n - 1) as nat, dir, build, a, from);
        if front.end is Ok {
            lemma_tags_run(entries[n - 1].1, dir, build, a, b, from + front.acts.len());
        }
    }
}

proof fn lemma_items_stop(
    items: Seq<Tree>,
    n: nat,
    dir: Seq<char>,
    build: Act,
    log: Log,
    from: int,
)
    requires
        n <= items.len(),
        item_tags_run(items, n, dir, build, log, from).end is Err,
    ensures
        item_tags_run(items, items.len(), dir, build, log, from) == item_tags_run(
            items,
            n,
            dir,
            build,
            log,
            from,
        ),
    decreases items.len() - n,
{
    if n < items.len() {
        lemma_items_stop(items, n + 1, dir, build, log, from);
    }
}

proof fn lemma_entries_stop(
    entries: Seq<(Tree, Tree)>,
    n: nat,
    dir: Seq<char>,
    build: Act,
    log: Log,
    from: int,
)
    requires
        n <= entries.len(),
        entry_tags_run(entries, n, dir, build, log, from).end is Err,
    ensures
        entry_tags_run(entries, entries.len(), dir, build, log, from) == entry_tags_run(
            entries,
            n,
            dir,
            build,
            log,
            from,
        ),
    decreases entries.len() - n,
{
    if n < entries.len() {
        lemma_entries_stop(entries, n + 1, dir, build, log, from);
    }
}

/// Lets scripts see a context and runs code.
fn run_code<S: Scripts>(
    code: &str,
    scripts: &mut S,
    ctx: &EvalContext,
    config_path: &str,
) -> (r: Result<Yaml, DaemonError>)
    ensures
        ({
            let run = code_run(
                code@,
                build_act(*ctx, false),
                final(scripts).log(),
                old(scripts).log().len() as int,
            );
            &&& extends(old(scripts).log(), final(scripts).log(), run.acts)
            &&& ends_with(r, config_path@, run.end)
        }),
{
    match scripts.perform(Order::Build { ctx, open: false }) {
        Ok(_) => match scripts.perform(Order::Run { form: Form::Block, code, chunk: "lua" }) {
            Ok(v) => lua_to_yaml(&v, config_path),
            Err(m) => Err(lua_error(config_path, concat("Lua error: ", m.as_str()))),
        },
        Err(m) => Err(lua_error(config_path, concat("Lua error: ", m.as_str()))),
    }
}

/// Runs the code of a tag.
fn evaluate_lua_tag<S: Scripts>(
    tag: &str,
    code_value: &Yaml,
    scripts: &mut S,
    ctx: &EvalContext,
    config_dir: &str,
    config_path: &str,
) -> (r: Result<Yaml, DaemonError>)
    ensures
        ({
            let run = tag_run(
                tag@,
                code_value@,
                config_dir@,
                build_act(*ctx, false),
                final(scripts).log(),
                old(scripts).log().len() as int,
            );
            &&& extends(old(scripts).log(), final(scripts).log(), run.acts)
            &&& ends_with(r, config_path@, run.end)
        }),
{
    let ghost start = scripts.log();
    if same(tag, "lua_file") {
        match code_value.as_str() {
            Some(p) => {
                let path = join(config_dir, p);
                match scripts.perform(Order::Read { path: path.as_str() }) {
                    Ok(v) => {
                        let code = lua_value_to_string(&v);
                        let ghost middle = scripts.log();
                        let r = run_code(code.as_str(), scripts, ctx, config_path);
                        proof {
                            let now = scripts.log();
                            let run = code_run(
                                code@,
                                build_act(*ctx, false),
                                now,
                                middle.len() as int,
                            );
                            assert(extends(start, middle, seq![Act::Read { path: path@ }]));
                            lemma_extends_twice(
                                start,
                                middle,
                                now,
                                seq![Act::Read { path: path@ }],
                                run.acts,
                            );
                            assert(now[start.len() as int] == middle[start.len() as int]);
                        }
                        r
                    },
                    Err(m) => {
                        let text = concat5("Failed to read ", path.as_str(), ": ", m.as_str(), "");
                        proof {
                            reveal_strlit("");
                            assert(text@ =~= "Failed to read "@ + path@ + ": "@ + m@);
                        }
                        Err(lua_error(config_path, text))
                    },
                }
            },
            None => Err(
                lua_error(config_path, "!lua_file value must be a string path".to_owned()),
            ),
        }
    } else {
        match code_value.as_str() {
            Some(code) => run_code(code, scripts, ctx, config_path),
            None => Err(lua_error(config_path, "!lua value must be a string".to_owned())),
        }
    }
}

/// Runs the code of a value, if the value itself is code.
pub fn process_single_lua_tag<S: Scripts>(
    value: &Yaml,
    scripts: &mut S,
    ctx: &EvalContext,
    config_dir: &str,
    config_path: &str,
) -> (r: Result<Yaml, DaemonError>)
    ensures
        ({
            let run = single_run(
                value@,
                config_dir@,
                build_act(*ctx, false),
                final(scripts).log(),
                old(scripts).log().len() as int,
            );
            &&& extends(old(scripts).log(), final(scripts).log(), run.acts)
            &&& ends_with(r, config_path@, run.end)
        }),
{
    match value {
        Yaml::Tagged { tag, value: inner } => {
            if same(tag.as_str(), "lua") || same(tag.as_str(), "lua_file") {
                evaluate_lua_tag(tag.as_str(), &**inner, scripts, ctx, config_dir, config_path)
            } else {
                Ok(value.copy())
            }
        },
        _ => Ok(value.copy()),
    }
}

/// Runs the code in a tree.
pub fn process_lua_tags_recursive<S: Scripts>(
    value: &Yaml,
    scripts: &mut S,
    ctx: &EvalContext,
    config_dir: &str,
    config_path: &str,
) -> (r: Result<Yaml, DaemonError>)
    ensures
        ({
            let run = tags_run(
                value@,
                config_dir@,
                build_act(*ctx, false),
                final(scripts).log(),
                old(scripts).log().len() as int,
            );
            &&& extends(old(scripts).log(), final(scripts).log(), run.acts)
            &&& ends_with(r, config_path@, run.end)
        }),
    decreases value,
{
    broadcast use lemma_tree_parts;

    let ghost build = build_act(*ctx, false);
    let ghost start = scripts.log();
    let ghost from = start.len() as int;
    match value {
        Yaml::Sequence(items) => {
            let ghost all = trees(items@);
            let mut out: Vec<Yaml> = Vec::new();
            let mut i: usize = 0;
            assert(trees(out@) == Seq::<Tree>::empty());
            while i < items.len()
                invariant
                    i <= items@.len(),
                    all == trees(items@),
                    value@ == Tree::Sequence(all),
                    start == old(scripts).log(),
                    from == start.len(),
                    build == build_act(*ctx, false),
                    decreases_to!(value => items@),
                    ({
                        let run = item_tags_run(
                            all,
                            i as nat,
                            config_dir@,
                            build,
                            scripts.log(),
                            from,
                        );
                        &&& extends(start, scripts.log(), run.acts)
                        &&& run.end == Ok::<Seq<Tree>, Fault>(trees(out@))
                    }),
                decreases items@.len() - i,
            {
                let ghost before = scripts.log();
                let ghost done = trees(out@);
                let ghost front = item_tags_run(all, i as nat, config_dir@, build, before, from);
                assert(all[i as int] == items@[i as int]@);
                assert(decreases_to!(value => items@[i as int]));
                let r = process_lua_tags_recursive(
                    &items[i],
                    scripts,
                    ctx,
                    config_dir,
                    config_path,
                );
                proof {
                    let now = scripts.log();
                    let run = tags_run(
                        all[i as int],
                        config_dir@,
                        build,
                        now,
                        before.len() as int,
                    );
                    lemma_extends_agree(before, now, run.acts);
                    lemma_item_tags_run(all, i as nat, config_dir@, build, before, now, from);
                    lemma_extends_twice(start, before, now, front.acts, run.acts);
                }
                match r {
                    Ok(v) => {
                        out.push(v);
                        assert(trees(out@) == done.push(v@));
                    },
                    Err(e) => {
                        proof {
                            lemma_items_stop(
                                all,
                                (i + 1) as nat,
                                config_dir@,
                                build,
                                scripts.log(),
                                from,
                            );
                        }
                        return Err(e);
                    },
                }
                i += 1;
            }
            Ok(Yaml::Sequence(out))
        },
        Yaml::Mapping(entries) => {
            let ghost all = entry_trees(entries@);
            let mut out: Vec<(Yaml, Yaml)> = Vec::new();
            let mut i: usize = 0;
            assert(entry_trees(out@) == Seq::<(Tree, Tree)>::empty());
            while i < entries.len()
                invariant
                    i <= entries@.len(),
                    all == entry_trees(entries@),
                    value@ == Tree::Mapping(all),
                    start == old(scripts).log(),
                    from == start.len(),
                    build == build_act(*ctx, false),
                    decreases_to!(value => entries@),
                    ({
                        let run = entry_tags_run(
                            all,
                            i as nat,
                            config_dir@,
                            build,
                            scripts.log(),
                            from,
                        );
                        &&& extends(start, scripts.log(), run.acts)
                        &&& run.end == Ok::<Seq<(Tree, Tree)>, Fault>(entry_trees(out@))
                    }),
                decreases entries@.len() - i,
            {
                let ghost before = scripts.log();
                let ghost done = entry_trees(out@);
                let ghost front = entry_tags_run(all, i as nat, config_dir@, build, before, from);
                assert(all[i as int] == (entries@[i as int].0@, entries@[i as int].1@));
                assert(decreases_to!(value => entries@[i as int].1));
                let r = process_lua_tags_recursive(
                    &entries[i].1,
                    scripts,
                    ctx,
                    config_dir,
                    config_path,
                );
                proof {
                    let now = scripts.log();
                    let run = tags_run(
                        all[i as int].1,
                        config_dir@,
                        build,
                        now,
                        before.len() as int,
                    );
                    lemma_extends_agree(before, now, run.acts);
                    lemma_entry_tags_run(all, i as nat, config_dir@, build, before, now, from);
                    lemma_extends_twice(start, before, now, front.acts, run.acts);
                }
                match r {
                    Ok(v) => {
                        let key = entries[i].0.copy();
                        out.push((key, v));
                        assert(entry_trees(out@) == done.push((key@, v@)));
                    },
                    Err(e) => {
                        proof {
                            lemma_entries_stop(
                                all,
                                (i + 1) as nat,
                                config_dir@,
                                build,
                                scripts.log(),
                                from,
                            );
                        }
                        return Err(e);
                    },
                }
                i += 1;
            }
            Ok(Yaml::Mapping(out))
        },
        _ => process_single_lua_tag(value, scripts, ctx, config_dir, config_path),
    }
}

/// Whether a tree has code in it. What stands under another tag does not count.
pub open spec fn has_code_tag(t: Tree) -> bool
    decreases t,
{
    match t {
        Tree::Tagged(tag, _) => is_code_tag(tag),
        Tree::Sequence(items) => exists|i: int|
            0 <= i < items.len() && has_code_tag(#[trigger] items[i]),
        Tree::Mapping(entries) => exists|i: int|
            0 <= i < entries.len() && has_code_tag((#[trigger] entries[i]).1),
        _ => false,
    }
}

/// A tree without code is kept as it is, and nothing is asked of the interpreter for it.
pub proof fn law_tree_without_tags_kept(t: Tree, dir: Seq<char>, build: Act, log: Log, from: int)
    requires
        !has_code_tag(t),
    ensures
        tags_run(t, dir, build, log, from) == (Run {
            acts: Seq::<Act>::empty(),
            end: Ok::<Tree, Fault>(t),
        }),
    decreases t, 0nat,
{
    match t {
        Tree::Sequence(items) => {
            lemma_plain_items(items, items.len(), dir, build, log, from);
            assert(items.take(items.len() as int) =~= items);
        },
        Tree::Mapping(entries) => {
            lemma_plain_entries(entries, entries.len(), dir, build, log, from);
            assert(entries.take(entries.len() as int) =~= entries);
        },
        _ => {},
    }
}

proof fn lemma_plain_items(
    items: Seq<Tree>,
    n: nat,
    dir: Seq<char>,
    build: Act,
    log: Log,
    from: int,
)
    requires
        n <= items.len(),
        forall|i: int| 0 <= i < items.len() ==> !has_code_tag(#[trigger] items[i]),
    ensures
        item_tags_run(items, n, dir, build, log, from) == (Run {
            acts: Seq::<Act>::empty(),
            end: Ok::<Seq<Tree>, Fault>(items.take(n as int)),
        }),
    decreases items, n,
{
    if n > 0 {
        lemma_plain_items(items, (n - 1) as nat, dir, build, log, from);
        law_tree_without_tags_kept(items[n - 1], dir, build, log, from);
        assert(items.take(n - 1).push(items[n - 1]) =~= items.take(n as int));
        assert(Seq::<Act>::empty() + Seq::<Act>::empty() =~= Seq::<Act>::empty());
    } else {
        assert(items.take(0) =~= Seq::<Tree>::empty());
    }
}

proof fn lemma_plain_entries(
    entries: Seq<(Tree, Tree)>,
    n: nat,
    dir: Seq<char>,
    build: Act,
    log: Log,
    from: int,
)
    requires
        n <= entries.len(),
        forall|i: int| 0 <= i < entries.len() ==> !has_code_tag((#[trigger] entries[i]).1),
    ensures
        entry_tags_run(entries, n, dir, build, log, from) == (Run {
            acts: Seq::<Act>::empty(),
            end: Ok::<Seq<(Tree, Tree)>, Fault>(entries.take(n as int)),
        }),
    decreases entries, n,
{
    if n > 0 {
        lemma_plain_entries(entries, (n - 1) as nat, dir, build, log, from);
        law_tree_without_tags_kept(entries[n - 1].1, dir, build, log, from);
        assert(entries.take(n - 1).push((entries[n - 1].0, entries[n - 1].1)) =~= entries.take(
            n as int,
        ));
        assert(Seq::<Act>::empty() + Seq::<Act>::empty() =~= Seq::<Act>::empty());
    } else {
        assert(entries.take(0) =~= Seq::<(Tree, Tree)>::empty());
    }
}

} // verus!
