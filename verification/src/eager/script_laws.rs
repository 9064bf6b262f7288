//! What holds of code in configurations that are computed when they are loaded.
use vstd::prelude::*;
use vstd::string::*;
use crate::config::evaluate::build_act;
use crate::config::lua::lua_to_yaml;
use crate::config::resolve::Log;
use crate::eager::load::{
    environment_stage, file_stage, later_stages, lua_sources, process_service_lua, read_acts,
    service_stages,
};
use crate::eager::lua::{
    code_run, has_code_tag, law_tree_without_tags_kept, process_lua_tags_recursive,
    process_single_lua_tag, single_run, tag_run, Vars,
};
use crate::eager::scripts::{
    field_run, fields_run, hook_tags_run, put_var, var_index, Surroundings,
};
use crate::env::lemma_split_entry;
use crate::errors::DaemonError;
use crate::lua_eval::{seen_vars, Act, EvalContext, Form, Reply, Scripts, Sight};
use crate::lua_value::{lua_value_to_string, LuaValue};
use crate::name_map::NameMap;
use crate::paths::join;
use crate::text::views;
use crate::value::{
    key_index, lemma_key_index, lemma_key_index_unique, lookup, put, Tree, Yaml,
};

verus! {

/// A value with the tag `lua` is what its code gives: the context is shown, and then the code runs
/// once.
pub proof fn law_tagged_code_is_run<S: Scripts>(
    value: Yaml,
    scripts: &mut S,
    ctx: EvalContext,
    dir: &str,
    path: &str,
    r: Result<Yaml, DaemonError>,
    code: Seq<char>,
    given: LuaValue,
    y: Yaml,
)
    requires
        call_ensures(process_single_lua_tag::<S>, (&value, scripts, &ctx, dir, path), r),
        value@ == Tree::Tagged("lua"@, Box::new(Tree::Text(code))),
        call_ensures(lua_to_yaml, (&given, path), Ok::<Yaml, DaemonError>(y)),
    ensures
        ({
            let log = final(scripts).log();
            let from = old(scripts).log().len() as int;
            &&& log.len() > from
            &&& log[from].0 is Build
            &&& log[from].1 is Fault ==> log.len() == from + 1 && r is Err
            &&& log[from].1 is Value ==> log.len() == from + 2 && log[from + 1].0 == (Act::Run {
                form: Form::Block,
                code,
                chunk: "lua"@,
            })
            &&& log[from].1 is Value && log[from + 1].1 == Reply::Value(given) ==> (r matches Ok(v)
                && v@ == y@)
            &&& log[from].1 is Value ==> (log[from + 1].1 matches Reply::Fault(m) ==> (r matches Err(
                DaemonError::LuaError { path: p, message },
            ) && p@ == path@ && message@ == "Lua error: "@ + m))
        }),
{
    reveal_strlit("lua");
    reveal_strlit("lua_file");
    assert("lua"@.len() == 3 && "lua_file"@.len() == 8);
    let log = final(scripts).log();
    let from = old(scripts).log().len() as int;
    let build = build_act(ctx, false);
    let run = single_run(value@, dir@, build, log, from);
    assert(run == code_run(code, build, log, from));
    assert(run.acts[0] == build);
    assert(log[from].0 == run.acts[0]);
    if log[from].1 is Value {
        assert(run.acts[1] == (Act::Run { form: Form::Block, code, chunk: "lua"@ }));
        assert(log[from + 1].0 == run.acts[1]);
    }
}

/// A value with the tag `lua_file` is what the code of the file gives, whose path is seen from the
/// directory of the configuration: the file is read first. One that cannot be read is reported.
pub proof fn law_code_of_a_file_is_run<S: Scripts>(
    value: Yaml,
    scripts: &mut S,
    ctx: EvalContext,
    dir: &str,
    path: &str,
    r: Result<Yaml, DaemonError>,
    file: &str,
    whole: String,
    text: LuaValue,
    code: String,
)
    requires
        call_ensures(process_single_lua_tag::<S>, (&value, scripts, &ctx, dir, path), r),
        value@ == Tree::Tagged("lua_file"@, Box::new(Tree::Text(file@))),
        call_ensures(join, (dir, file), whole),
        call_ensures(lua_value_to_string, (&text,), code),
    ensures
        ({
            let log = final(scripts).log();
            let from = old(scripts).log().len() as int;
            &&& log.len() > from
            &&& log[from].0 == (Act::Read { path: whole@ })
            &&& log[from].1 matches Reply::Fault(m) ==> log.len() == from + 1 && (r matches Err(
                DaemonError::LuaError { path: p, message },
            ) && p@ == path@ && message@ == "Failed to read "@ + whole@ + ": "@ + m)
            &&& log[from].1 == Reply::Value(text) ==> log.len() > from + 1 && log[from + 1].0
                is Build && (log[from + 1].1 is Value ==> log.len() == from + 3 && log[from + 2].0
                == (Act::Run { form: Form::Block, code: code@, chunk: "lua"@ }))
        }),
{
    reveal_strlit("lua");
    reveal_strlit("lua_file");
    assert("lua"@.len() == 3 && "lua_file"@.len() == 8);
    let log = final(scripts).log();
    let from = old(scripts).log().len() as int;
    let build = build_act(ctx, false);
    let run = single_run(value@, dir@, build, log, from);
    assert(run == tag_run("lua_file"@, Tree::Text(file@), dir@, build, log, from));
    assert(run.acts[0] == (Act::Read { path: whole@ }));
    assert(log[from].0 == run.acts[0]);
    if log[from].1 == Reply::Value(text) {
        let inner = code_run(code@, build, log, from + 1);
        assert(run.acts == seq![Act::Read { path: whole@ }] + inner.acts);
        assert(run.acts[1] == inner.acts[0]);
        assert(log[from + 1].0 == run.acts[1]);
        if log[from + 1].1 is Value {
            assert(run.acts[2] == inner.acts[1]);
            assert(log[from + 2].0 == run.acts[2]);
        }
    }
}

/// Values without code are kept at any depth, and nothing is asked for them; what stands under
/// another tag is no code.
pub proof fn law_values_without_code_are_kept<S: Scripts>(
    value: Yaml,
    scripts: &mut S,
    ctx: EvalContext,
    dir: &str,
    path: &str,
    r: Result<Yaml, DaemonError>,
)
    requires
        call_ensures(process_lua_tags_recursive::<S>, (&value, scripts, &ctx, dir, path), r),
        !has_code_tag(value@),
    ensures
        r matches Ok(v) && v@ == value@,
        final(scripts).log() == old(scripts).log(),
{
    law_tree_without_tags_kept(
        value@,
        dir@,
        build_act(ctx, false),
        final(scripts).log(),
        old(scripts).log().len() as int,
    );
    assert(final(scripts).log() =~= old(scripts).log());
}

/// Setting a key to the value that it has changes nothing.
proof fn lemma_put_same(entries: Seq<(Tree, Tree)>, key: Tree)
    requires
        lookup(entries, key) is Some,
    ensures
        put(entries, key, lookup(entries, key)->0) == entries,
{
    lemma_key_index(entries, key);
    assert(put(entries, key, lookup(entries, key)->0) =~= entries);
}

/// Hooks without code are kept.
proof fn lemma_plain_hooks(
    hooks: Seq<(Tree, Tree)>,
    n: nat,
    dir: Seq<char>,
    s: Surroundings,
    log: Log,
    from: int,
)
    requires
        n <= hooks.len(),
        forall|i: int| 0 <= i < hooks.len() ==> !has_code_tag((#[trigger] hooks[i]).1),
    ensures
        hook_tags_run(hooks, n, dir, s, log, from).acts.len() == 0,
        hook_tags_run(hooks, n, dir, s, log, from).end matches Ok(done) && done == hooks.take(
            n as int,
        ),
    decreases n,
{
    if n > 0 {
        lemma_plain_hooks(hooks, (n - 1) as nat, dir, s, log, from);
        assert(!has_code_tag(hooks[n - 1].1));
        if let Tree::Text(name) = hooks[n - 1].0 {
            law_tree_without_tags_kept(
                hooks[n - 1].1,
                dir,
                crate::eager::scripts::seen_act(s, Some(name)),
                log,
                from,
            );
        }
        assert(hooks.take(n - 1).push(hooks[n - 1]) =~= hooks.take(n as int));
    } else {
        assert(hooks.take(0) =~= Seq::<(Tree, Tree)>::empty());
    }
}

/// Fields without code are kept.
proof fn lemma_plain_fields(
    fields: Seq<(Tree, Tree)>,
    n: nat,
    dir: Seq<char>,
    s: Surroundings,
    log: Log,
    from: int,
)
    requires
        n <= fields.len(),
        forall|i: int| 0 <= i < fields.len() ==> !has_code_tag((#[trigger] fields[i]).1),
    ensures
        fields_run(fields, n, dir, s, log, from).acts.len() == 0,
        fields_run(fields, n, dir, s, log, from).end matches Ok(done) && done == fields.take(
            n as int,
        ),
    decreases n,
{
    if n > 0 {
        lemma_plain_fields(fields, (n - 1) as nat, dir, s, log, from);
        let (key, t) = fields[n - 1];
        assert(!has_code_tag(fields[n - 1].1));
        law_tree_without_tags_kept(
            t,
            dir,
            crate::eager::scripts::seen_act(s, None),
            log,
            from,
        );
        if let Tree::Mapping(hooks) = t {
            assert forall|i: int| 0 <= i < hooks.len() implies !has_code_tag(
                (#[trigger] hooks[i]).1,
            ) by {}
            lemma_plain_hooks(hooks, hooks.len(), dir, s, log, from);
            assert(hooks.take(hooks.len() as int) =~= hooks);
        }
        let r = field_run(key, t, dir, s, log, from);
        assert(r.acts.len() == 0);
        assert(r.end == Ok::<Tree, crate::config::evaluate::Fault>(t));
        assert(fields.take(n - 1).push(fields[n - 1]) =~= fields.take(n as int));
    } else {
        assert(fields.take(0) =~= Seq::<(Tree, Tree)>::empty());
    }
}

/// A service without code is kept as it is. Its environment file, if it names one, is read once,
/// by its path seen from the directory of the configuration; nothing else is asked.
pub proof fn law_service_without_code_is_kept<S: Scripts>(
    value: Yaml,
    name: &str,
    scripts: &mut S,
    sys_env: NameMap<String>,
    dir: &str,
    path: &str,
    r: Result<Yaml, DaemonError>,
    fields: Seq<(Tree, Tree)>,
    file: &str,
    whole: String,
)
    requires
        call_ensures(process_service_lua::<S>, (&value, name, scripts, &sys_env, dir, path), r),
        value@ == Tree::Mapping(fields),
        forall|i: int| 0 <= i < fields.len() ==> !has_code_tag((#[trigger] fields[i]).1),
        call_ensures(join, (dir, file), whole),
    ensures
        r matches Ok(v) && v@ == value@,
        lookup(fields, Tree::Text("env_file"@)) is None ==> final(scripts).log()
            == old(scripts).log(),
        lookup(fields, Tree::Text("env_file"@)) == Some(Tree::Text(file@)) ==> {
            &&& final(scripts).log().len() == old(scripts).log().len() + 1
            &&& final(scripts).log().last().0 == (Act::ReadVars { path: whole@ })
        },
{
    let log = final(scripts).log();
    let from = old(scripts).log().len() as int;
    let sys = seen_vars(sys_env);
    let first = file_stage(fields, name@, dir@, sys, log, from);
    lemma_key_index(fields, Tree::Text("env_file"@));
    lemma_key_index(fields, Tree::Text("environment"@));
    if lookup(fields, Tree::Text("env_file"@)) is Some {
        let i = key_index(fields, Tree::Text("env_file"@));
        assert(!has_code_tag(fields[i].1));
        lemma_put_same(fields, Tree::Text("env_file"@));
    }
    assert(first.acts.len() == 0);
    assert(first.end == Ok::<Seq<(Tree, Tree)>, crate::config::evaluate::Fault>(fields));
    let asked = read_acts(fields, dir@);
    let at = from + asked.len();
    let vars = crate::eager::load::file_vars(fields, dir@, log, from);
    if lookup(fields, Tree::Text("environment"@)) is Some {
        let i = key_index(fields, Tree::Text("environment"@));
        assert(!has_code_tag(fields[i].1));
        lemma_put_same(fields, Tree::Text("environment"@));
    }
    let second = environment_stage(fields, name@, dir@, sys, vars, log, at);
    assert(second.acts.len() == 0);
    assert(second.end == Ok::<Seq<(Tree, Tree)>, crate::config::evaluate::Fault>(fields));
    let s = Surroundings {
        name: Some(name@),
        sys,
        file: vars,
        env: crate::eager::scripts::field_vars(
            crate::eager::scripts::put_vars(sys, vars, vars.len()),
            fields,
        ),
    };
    lemma_plain_fields(fields, fields.len(), dir@, s, log, at);
    assert(fields.take(fields.len() as int) =~= fields);
    let later = later_stages(fields, name@, dir@, sys, vars, log, at);
    assert(later.acts.len() == 0);
    let run = service_stages(fields, name@, dir@, sys, log, from);
    assert(run.acts =~= asked);
    if asked.len() == 0 {
        assert(log =~= old(scripts).log());
    } else {
        assert(log.last() == log[from]);
        assert(log[from].0 == asked[0]);
    }
}

/// The code of a configuration is the text under its key, and its files are those it names, seen
/// from its directory, in order.
pub proof fn law_sources_of_code(
    root: Yaml,
    dir: &str,
    r: (Option<String>, Vec<String>),
    entries: Seq<(Tree, Tree)>,
    code: Seq<char>,
    file: &str,
    whole: String,
)
    requires
        call_ensures(lua_sources, (&root, dir), r),
        root@ == Tree::Mapping(entries),
        call_ensures(join, (dir, file), whole),
    ensures
        lookup(entries, Tree::Text("lua"@)) == Some(Tree::Text(code)) ==> (r.0 matches Some(c) && c@
            == code),
        lookup(entries, Tree::Text("lua"@)) is None ==> r.0 is None,
        lookup(entries, Tree::Text("lua_import"@)) is None ==> r.1@.len() == 0,
        lookup(entries, Tree::Text("lua_import"@)) == Some(
            Tree::Sequence(seq![Tree::Text(file@)]),
        ) ==> r.1@.len() == 1 && r.1@[0]@ == whole@,
{
    assert(views(r.1@).len() == r.1@.len());
    if lookup(entries, Tree::Text("lua_import"@)) == Some(
        Tree::Sequence(seq![Tree::Text(file@)]),
    ) {
        let items = seq![Tree::Text(file@)];
        reveal_with_fuel(crate::eager::load::paths_in, 2);
        assert(crate::eager::load::paths_in(items, 1, dir@) =~= seq![whole@]);
        assert(views(r.1@)[0] == r.1@[0]@);
    }
}

/// A value with another tag than `lua` and `lua_file` is no code: it is kept, and nothing is asked.
pub proof fn law_other_tags_are_kept<S: Scripts>(
    value: Yaml,
    scripts: &mut S,
    ctx: EvalContext,
    dir: &str,
    path: &str,
    r: Result<Yaml, DaemonError>,
    tag: Seq<char>,
    inner: Tree,
)
    requires
        call_ensures(process_single_lua_tag::<S>, (&value, scripts, &ctx, dir, path), r),
        value@ == Tree::Tagged(tag, Box::new(inner)),
        tag != "lua"@ && tag != "lua_file"@,
    ensures
        r matches Ok(v) && v@ == value@,
        final(scripts).log() == old(scripts).log(),
{
    assert(final(scripts).log() =~= old(scripts).log());
}

/// A variable that is set is there with its value.
proof fn lemma_put_var(vars: Vars, name: Seq<char>, value: Seq<char>) -> (i: int)
    ensures
        0 <= i < put_var(vars, name, value).len(),
        put_var(vars, name, value)[i] == (name, Sight::Text(value)),
{
    lemma_var_index(vars, name);
    let i = var_index(vars, name);
    if i < vars.len() {
        i
    } else {
        vars.len() as int
    }
}

/// Where a variable is found.
proof fn lemma_var_index(vars: Vars, name: Seq<char>)
    ensures
        0 <= var_index(vars, name) <= vars.len(),
    decreases vars.len(),
{
    if vars.len() > 0 && vars[0].0 != name {
        lemma_var_index(vars.skip(1), name);
    }
}

/// The code of a field sees the variables that the environment of its service sets, by name and
/// with their values, and runs under the name of the service.
pub proof fn law_code_sees_the_environment<S: Scripts>(
    value: Yaml,
    name: &str,
    scripts: &mut S,
    sys_env: NameMap<String>,
    dir: &str,
    path: &str,
    r: Result<Yaml, DaemonError>,
    key: Seq<char>,
    text: Seq<char>,
    code: Seq<char>,
)
    requires
        call_ensures(process_service_lua::<S>, (&value, name, scripts, &sys_env, dir, path), r),
        value@ == Tree::Mapping(
            seq![
                (
                    Tree::Text("environment"@),
                    Tree::Sequence(seq![Tree::Text(key + seq!['='] + text)]),
                ),
                (Tree::Text("command"@), Tree::Tagged("lua"@, Box::new(Tree::Text(code)))),
            ],
        ),
        forall|j: int| 0 <= j < key.len() ==> #[trigger] key[j] != '=',
    ensures
        ({
            let log = final(scripts).log();
            let from = old(scripts).log().len() as int;
            &&& log.len() > from
            &&& log[from].0 is Build
            &&& (exists|i: int|
                0 <= i < log[from].0->vars.len() && #[trigger] log[from].0->vars[i] == (
                    key,
                    Sight::Text(text),
                ))
            &&& log[from].1 is Value ==> log.len() == from + 2 && log[from + 1].0 == (Act::Run {
                form: Form::Block,
                code,
                chunk: "lua"@,
            })
        }),
{
    reveal_strlit("environment");
    reveal_strlit("env_file");
    reveal_strlit("command");
    reveal_strlit("hooks");
    reveal_strlit("lua");
    reveal_strlit("lua_file");
    assert("environment"@.len() == 11 && "env_file"@.len() == 8 && "command"@.len() == 7
        && "hooks"@.len() == 5 && "lua"@.len() == 3 && "lua_file"@.len() == 8);
    assert("env_file"@[0] == 'e' && "lua_file"@[0] == 'l');
    let log = final(scripts).log();
    let from = old(scripts).log().len() as int;
    let sys = seen_vars(sys_env);
    let entry = Tree::Text(key + seq!['='] + text);
    let tagged = Tree::Tagged("lua"@, Box::new(Tree::Text(code)));
    let fields = seq![
        (Tree::Text("environment"@), Tree::Sequence(seq![entry])),
        (Tree::Text("command"@), tagged),
    ];
    lemma_key_index_unique(fields, Tree::Text("env_file"@), 2);
    lemma_key_index_unique(fields, Tree::Text("environment"@), 0);
    lemma_put_same(fields, Tree::Text("environment"@));
    let none: Vars = seq![];
    let first = file_stage(fields, name@, dir@, sys, log, from);
    assert(first.acts.len() == 0);
    assert(first.end == Ok::<Seq<(Tree, Tree)>, crate::config::evaluate::Fault>(fields));
    assert(read_acts(fields, dir@).len() == 0);
    let second = environment_stage(fields, name@, dir@, sys, none, log, from);
    assert(second.acts.len() == 0);
    assert(second.end == Ok::<Seq<(Tree, Tree)>, crate::config::evaluate::Fault>(fields));
    lemma_split_entry(key, text);
    reveal_with_fuel(crate::eager::scripts::list_vars, 2);
    assert(crate::eager::scripts::put_vars(sys, none, 0) == sys);
    let env = put_var(sys, key, text);
    assert(crate::eager::scripts::field_vars(sys, fields) == env);
    let s = Surroundings { name: Some(name@), sys, file: none, env };
    let build = crate::eager::scripts::seen_act(s, None);
    reveal_with_fuel(fields_run, 3);
    let one = fields_run(fields, 1, dir@, s, log, from);
    assert(one.acts.len() == 0);
    assert(one.end is Ok);
    let inner = code_run(code, build, log, from);
    assert(field_run(fields[1].0, fields[1].1, dir@, s, log, from) == inner);
    let all = fields_run(fields, 2, dir@, s, log, from);
    assert(all.acts =~= inner.acts);
    let later = later_stages(fields, name@, dir@, sys, none, log, from);
    assert(later.acts =~= inner.acts);
    let run = service_stages(fields, name@, dir@, sys, log, from);
    assert(run.acts =~= inner.acts);
    assert(run.acts[0] == build);
    assert(log[from].0 == run.acts[0]);
    let i = lemma_put_var(sys, key, text);
    assert(build->vars == env);
    assert(log[from].0->vars[i] == (key, Sight::Text(text)));
    if log[from].1 is Value {
        assert(run.acts[1] == (Act::Run { form: Form::Block, code, chunk: "lua"@ }));
        assert(log[from + 1].0 == run.acts[1]);
    }
}

} // verus!
