//! What holds of every service whose configuration was computed.
use vstd::prelude::*;
use crate::config::config_value::ConfigValue;
use crate::config::deps::{
    entry_rules, list_rules, DependencyConfig, DependencyEntry, DependsOn,
};
use crate::config::environment::{text_field, text_fields, EnvironmentEntries};
use crate::config::evaluate::{build_act, extends};
use crate::config::expr::DynamicExpr;
use crate::config::health::HealthCheck;
use crate::config::hooks::{
    law_copied_hooks_are_the_same, lemma_optional_text_cloned, lemma_text_list_cloned,
    lemma_text_option_cloned, same_field, same_hook_list, same_text_list, HookCommand,
};
use crate::config::logs::LogConfig;
use crate::config::resolvable::{directory, process_step, CommandSpec, ResolvableCommand};
use crate::config::resolve::{field_step, items_step, texts_run, Log};
use crate::config::resolve_env::{
    add_env_file, add_file_vars, entries_step, env_ends, env_run, environment_step,
};
use crate::config::resolve_service::{
    check_step, command_step, field_path, known_list, logs_step, resolve_health_check,
    resolve_logs, resolve_restart, resolve_value, restart_step, script_command, texts_step, value_step,
    watch_step, Decoders,
};
use crate::config::resources::ResourceLimits;
use crate::config::restart::RestartConfig;
use crate::config::service::{
    shell_for, text_of, KeplerConfig, RawServiceConfig, ServiceConfig,
};
use crate::config::start::{kept_fields, service_label, service_step, Marks};
use crate::env::{
    lemma_last_entry_wins, lemma_split_entry, lemma_split_parts, texts, with_entries,
};
use crate::errors::DaemonError;
use crate::lua_eval::{Act, EvalContext, Form, Scripts};
use crate::name_map::NameMap;
use crate::number::decimal;
use crate::paths::join;
use crate::text::{opt_view, split_once_at, views};
use crate::value::Yaml;

verus! {

/// A computed service has hooks exactly if it is configured with hooks, and on each occasion in
/// its life the hooks that are configured run.
pub proof fn law_service_keeps_its_hooks<
    H: Fn(&Yaml) -> Result<Option<HealthCheck>, String>,
    L: Fn(&Yaml) -> Result<Option<ResourceLimits>, String>,
    R: Fn(&Yaml) -> Result<RestartConfig, String>,
    G: Fn(&Yaml) -> Result<Option<LogConfig>, String>,
>(
    raw: RawServiceConfig,
    name: Seq<char>,
    path: Seq<char>,
    ctx: EvalContext,
    done: EvalContext,
    bash_exists: bool,
    default_user: Option<Seq<char>>,
    env_file: Option<Seq<char>>,
    d: Decoders<H, L, R, G>,
    start: Log,
    l1: Log,
    l2: Log,
    l3: Log,
    m: Marks,
    end: Log,
    out: ServiceConfig,
)
    requires
        service_step(
            raw,
            name,
            path,
            ctx,
            done,
            bash_exists,
            default_user,
            env_file,
            d,
            start,
            l1,
            l2,
            l3,
            m,
            end,
            out,
        ),
    ensures
        out.hooks is Some <==> raw.hooks is Some,
        raw.hooks matches Some(h) ==> (out.hooks matches Some(o) && {
            &&& same_hook_list(h.pre_start, o.pre_start)
            &&& same_hook_list(h.post_start, o.post_start)
            &&& same_hook_list(h.pre_stop, o.pre_stop)
            &&& same_hook_list(h.post_stop, o.post_stop)
            &&& same_hook_list(h.pre_restart, o.pre_restart)
            &&& same_hook_list(h.post_restart, o.post_restart)
            &&& same_hook_list(h.post_exit, o.post_exit)
            &&& same_hook_list(h.pre_cleanup, o.pre_cleanup)
            &&& same_hook_list(h.post_healthcheck_success, o.post_healthcheck_success)
            &&& same_hook_list(h.post_healthcheck_fail, o.post_healthcheck_fail)
        }),
{
    law_copied_hooks_are_the_same(raw.hooks, out.hooks);
}

/// A copy of an entry of dependencies asks the same.
proof fn lemma_entry_cloned(a: DependencyEntry, b: DependencyEntry)
    requires
        cloned(a, b),
    ensures
        entry_rules(a) == entry_rules(b),
{
    if let (DependencyEntry::Extended(x), DependencyEntry::Extended(y)) = (a, b) {
        if a != b {
            assert(cloned(x, y));
            if x != y {
                assert forall|i: int| 0 <= i < x.values().len() implies (
                #[trigger] x.values()[i])@ == y.values()[i]@ by {
                    assert(cloned::<DependencyConfig>(x.values()[i], y.values()[i]));
                }
                assert(entry_rules(a) =~= entry_rules(b));
            }
        }
    }
}

/// Entries that ask the same one by one ask the same together.
proof fn lemma_entries_cloned(a: Seq<DependencyEntry>, b: Seq<DependencyEntry>)
    requires
        a.len() == b.len(),
        forall|i: int| 0 <= i < a.len() ==> cloned(#[trigger] a[i], b[i]),
    ensures
        list_rules(a) == list_rules(b),
    decreases a.len(),
{
    if a.len() > 0 {
        assert forall|i: int| 0 <= i < a.drop_last().len() implies cloned(
            #[trigger] a.drop_last()[i],
            b.drop_last()[i],
        ) by {
            assert(cloned(a[i], b[i]));
        }
        lemma_entries_cloned(a.drop_last(), b.drop_last());
        assert(cloned(a[a.len() - 1], b[a.len() - 1]));
        lemma_entry_cloned(a.last(), b.last());
    }
}

/// A copy of dependencies asks the same of the same services, in the same order.
pub proof fn law_copied_dependencies_ask_the_same(a: DependsOn, b: DependsOn)
    requires
        cloned(a, b),
    ensures
        b.rules() == a.rules(),
{
    if a != b {
        assert(cloned(a.0, b.0));
        assert forall|i: int| 0 <= i < a.0@.len() implies cloned(#[trigger] a.0@[i], b.0@[i]) by {
            assert(cloned(a.0[i], b.0[i]));
        }
        lemma_entries_cloned(a.0@, b.0@);
    }
}

/// A computed service depends on the services that it is configured to depend on, in the same
/// way, and inherits the environment and gets the variables of its user as it is configured.
pub proof fn law_service_keeps_its_dependencies<
    H: Fn(&Yaml) -> Result<Option<HealthCheck>, String>,
    L: Fn(&Yaml) -> Result<Option<ResourceLimits>, String>,
    R: Fn(&Yaml) -> Result<RestartConfig, String>,
    G: Fn(&Yaml) -> Result<Option<LogConfig>, String>,
>(
    raw: RawServiceConfig,
    name: Seq<char>,
    path: Seq<char>,
    ctx: EvalContext,
    done: EvalContext,
    bash_exists: bool,
    default_user: Option<Seq<char>>,
    env_file: Option<Seq<char>>,
    d: Decoders<H, L, R, G>,
    start: Log,
    l1: Log,
    l2: Log,
    l3: Log,
    m: Marks,
    end: Log,
    out: ServiceConfig,
)
    requires
        service_step(
            raw,
            name,
            path,
            ctx,
            done,
            bash_exists,
            default_user,
            env_file,
            d,
            start,
            l1,
            l2,
            l3,
            m,
            end,
            out,
        ),
    ensures
        out.depends_on.rules() == raw.depends_on.rules(),
        out.inherit_env == raw.inherit_env,
        out.inject_user_env == raw.inject_user_env,
        opt_view(out.env_file) == env_file,
{
    law_copied_dependencies_ask_the_same(raw.depends_on, out.depends_on);
}

/// A known value is copied.
proof fn lemma_known_value<T: Clone, F: Fn(&Yaml) -> Result<T, String>>(
    v: T,
    prefix: Seq<char>,
    field: Seq<char>,
    path: Seq<char>,
    build: Act,
    decode: F,
    before: Log,
    after: Log,
    x: T,
)
    requires
        value_step(
            ConfigValue::Static(v),
            prefix,
            field,
            path,
            build,
            decode,
            before,
            after,
            Ok(x),
        ),
    ensures
        cloned(v, x),
{
    reveal(value_step);
}

/// Whether all texts of a list are known.
pub open spec fn all_known(items: Seq<ConfigValue<String>>) -> bool {
    forall|i: int| 0 <= i < items.len() ==> (#[trigger] items[i]) is Static
}

/// Known texts are taken one by one.
proof fn lemma_known_run(
    items: Seq<ConfigValue<String>>,
    n: nat,
    field: Seq<char>,
    built: bool,
    build: Act,
    log: Log,
    from: int,
)
    requires
        all_known(items),
        n <= items.len(),
    ensures
        ({
            let run = texts_run(text_fields(items), n, field, built, build, log, from);
            run.end matches Ok(texts) && texts.len() == n && forall|i: int|
                0 <= i < n ==> #[trigger] texts[i] == items[i]->Static_0@
        }),
    decreases n,
{
    if n > 0 {
        lemma_known_run(items, (n - 1) as nat, field, built, build, log, from);
        assert(items[n - 1] is Static);
        assert(text_fields(items)[n - 1] == text_field(items[n - 1]));
    }
}

/// A list of known texts comes out as it is written.
proof fn lemma_known_texts(
    items: Vec<ConfigValue<String>>,
    prefix: Seq<char>,
    field: Seq<char>,
    path: Seq<char>,
    build: Act,
    before: Log,
    after: Log,
    out: Vec<String>,
)
    requires
        texts_step(
            ConfigValue::Static(items),
            prefix,
            field,
            path,
            build,
            before,
            after,
            Ok(out),
        ),
        all_known(items@),
    ensures
        out@.len() == items@.len(),
        forall|i: int| 0 <= i < out@.len() ==> (#[trigger] out@[i])@ == items@[i]->Static_0@,
{
    reveal(texts_step);
    let place = field_path(prefix, field);
    let (middle, built, list) = choose|
        middle: Log,
        built: bool,
        list: Result<Vec<ConfigValue<String>>, DaemonError>,
    | #[trigger]
        field_step(
            ConfigValue::Static(items),
            place,
            path,
            build,
            crate::config::read::read_text_list,
            before,
            middle,
            true,
            built,
            list,
        ) && items_step(list, place, path, build, middle, after, built, true, Ok(out));
    let copy = list->Ok_0;
    assert(cloned(items, copy));
    crate::config::environment::lemma_text_fields_cloned(items, copy);
    assert(text_fields(items@).len() == items@.len());
    assert(text_fields(copy@).len() == copy@.len());
    lemma_known_run(items@, items@.len(), place, built, build, after, middle.len() as int);
    assert forall|i: int| 0 <= i < out@.len() implies (#[trigger] out@[i])@
        == items@[i]->Static_0@ by {
        assert(views(out@)[i] == out@[i]@);
    }
}

/// What a service is configured with and needs no computing comes out as it is written: its
/// directory, its condition, whether its output is kept, its limits and its groups. It runs as its
/// own user, and as the default user only if it has none.
pub proof fn law_known_fields_come_out_as_written<
    H: Fn(&Yaml) -> Result<Option<HealthCheck>, String>,
    L: Fn(&Yaml) -> Result<Option<ResourceLimits>, String>,
    R: Fn(&Yaml) -> Result<RestartConfig, String>,
    G: Fn(&Yaml) -> Result<Option<LogConfig>, String>,
>(
    raw: RawServiceConfig,
    name: Seq<char>,
    path: Seq<char>,
    ctx: EvalContext,
    done: EvalContext,
    bash_exists: bool,
    default_user: Option<Seq<char>>,
    env_file: Option<Seq<char>>,
    d: Decoders<H, L, R, G>,
    start: Log,
    l1: Log,
    l2: Log,
    l3: Log,
    m: Marks,
    end: Log,
    out: ServiceConfig,
)
    requires
        service_step(
            raw,
            name,
            path,
            ctx,
            done,
            bash_exists,
            default_user,
            env_file,
            d,
            start,
            l1,
            l2,
            l3,
            m,
            end,
            out,
        ),
    ensures
        raw.working_dir matches ConfigValue::Static(v) ==> out.working_dir == v,
        raw.condition matches ConfigValue::Static(v) ==> out.condition == v,
        raw.output matches ConfigValue::Static(v) ==> out.output == v,
        raw.limits matches ConfigValue::Static(v) ==> out.limits == v,
        raw.user matches ConfigValue::Static(Some(u)) ==> opt_view(out.user) == Some(u@),
        raw.user matches ConfigValue::Static(None) ==> opt_view(out.user) == default_user,
        raw.groups matches ConfigValue::Static(items) ==> (all_known(items@) ==> out.groups@.len()
            == items@.len() && forall|i: int|
            0 <= i < items@.len() ==> (#[trigger] out.groups@[i])@ == items@[i]->Static_0@),
{
    reveal(value_step);
    if let ConfigValue::Static(v) = raw.working_dir {
        assert(cloned(v, out.working_dir));
        lemma_optional_text_cloned(v, out.working_dir);
    }
    if let ConfigValue::Static(v) = raw.condition {
        assert(cloned(v, out.condition));
        if let (Some(a), Some(b)) = (v, out.condition) {
            assert(cloned(a, b));
        }
    }
    if let ConfigValue::Static(v) = raw.output {
        assert(cloned(v, out.output));
        if let (Some(a), Some(b)) = (v, out.output) {
            assert(cloned(a, b));
        }
    }
    if let ConfigValue::Static(v) = raw.limits {
        assert(cloned(v, out.limits));
        if let (Some(a), Some(b)) = (v, out.limits) {
            assert(cloned(a, b));
        }
    }
    if let ConfigValue::Static(v) = raw.user {
        assert forall|user: Option<String>| cloned(v, user) implies user == v by {
            lemma_optional_text_cloned(v, user);
        }
    }
    if let ConfigValue::Static(items) = raw.groups {
        if all_known(items@) {
            lemma_known_texts(
                items,
                name,
                "groups"@,
                path,
                crate::config::evaluate::build_act(done, false),
                m.user,
                m.groups,
                out.groups,
            );
        }
    }
}

/// A known script is run by the shell: the one that the environment names, unless it is empty,
/// else bash where there is one, else `sh`. Without a script the command runs as it is written.
pub proof fn law_script_runs_in_the_shell<
    H: Fn(&Yaml) -> Result<Option<HealthCheck>, String>,
    L: Fn(&Yaml) -> Result<Option<ResourceLimits>, String>,
    R: Fn(&Yaml) -> Result<RestartConfig, String>,
    G: Fn(&Yaml) -> Result<Option<LogConfig>, String>,
>(
    raw: RawServiceConfig,
    name: Seq<char>,
    path: Seq<char>,
    ctx: EvalContext,
    done: EvalContext,
    bash_exists: bool,
    default_user: Option<Seq<char>>,
    env_file: Option<Seq<char>>,
    d: Decoders<H, L, R, G>,
    start: Log,
    l1: Log,
    l2: Log,
    l3: Log,
    m: Marks,
    end: Log,
    out: ServiceConfig,
)
    requires
        service_step(
            raw,
            name,
            path,
            ctx,
            done,
            bash_exists,
            default_user,
            env_file,
            d,
            start,
            l1,
            l2,
            l3,
            m,
            end,
            out,
        ),
    ensures
        raw.run matches ConfigValue::Static(Some(script)) ==> {
            &&& out.command@.len() == 3
            &&& out.command@[1]@ == "-c"@
            &&& out.command@[2]@ == script@
            &&& ctx.kepler_env@.contains_key("SHELL"@) && ctx.kepler_env@["SHELL"@]@.len() > 0
                ==> out.command@[0]@ == ctx.kepler_env@["SHELL"@]@
            &&& !ctx.kepler_env@.contains_key("SHELL"@) || ctx.kepler_env@["SHELL"@]@.len() == 0
                ==> out.command@[0]@ == if bash_exists {
                "/bin/bash"@
            } else {
                "sh"@
            }
        },
        raw.run == ConfigValue::Static(None::<String>) ==> (raw.command matches ConfigValue::Static(
            items,
        ) ==> (all_known(items@) ==> out.command@.len() == items@.len() && forall|i: int|
            0 <= i < items@.len() ==> (#[trigger] out.command@[i])@ == items@[i]->Static_0@)),
{
    match raw.run {
        ConfigValue::Static(Some(script)) => {
            reveal(value_step);
            let build = crate::config::evaluate::build_act(done, false);
            let shell = shell_for(text_of(ctx.kepler_env, "SHELL"@), bash_exists);
            assert(command_step(
                raw.run,
                raw.command,
                name,
                path,
                build,
                shell,
                l3,
                m.command,
                Ok(out.command),
            ));
            let given = choose|given: Result<Option<String>, DaemonError>| #[trigger]
                value_step(
                    raw.run,
                    name,
                    "run"@,
                    path,
                    build,
                    crate::config::read::read_opt_text,
                    l3,
                    m.command,
                    given,
                ) && match given {
                    Ok(Some(s)) => Ok::<Vec<String>, DaemonError>(out.command) matches Ok(list)
                        && views(list@) == script_command(shell, s@),
                    Ok(None) => Ok::<Vec<String>, DaemonError>(out.command) matches Ok(list)
                        && list@.len() == 0,
                    Err(e) => Ok::<Vec<String>, DaemonError>(out.command) == Err::<
                        Vec<String>,
                        DaemonError,
                    >(e),
                };
            assert(cloned(Some(script), given->Ok_0));
            lemma_optional_text_cloned(Some(script), given->Ok_0);
            assert(views(out.command@) == script_command(shell, script@));
            assert(views(out.command@).len() == out.command@.len());
            assert(views(out.command@)[0] == out.command@[0]@);
            assert(views(out.command@)[1] == out.command@[1]@);
            assert(views(out.command@)[2] == out.command@[2]@);
        },
        ConfigValue::Static(None) => {
            if let ConfigValue::Static(items) = raw.command {
                if all_known(items@) {
                    lemma_known_texts(
                        items,
                        name,
                        "command"@,
                        path,
                        crate::config::evaluate::build_act(done, false),
                        l3,
                        m.command,
                        out.command,
                    );
                }
            }
        },
        _ => {},
    }
}

/// A known restart policy, known intervals of a health check and known log settings come out as
/// they are written; a service has a health check or log settings exactly if it is configured with
/// them.
pub proof fn law_known_settings_come_out_as_written<
    H: Fn(&Yaml) -> Result<Option<HealthCheck>, String>,
    L: Fn(&Yaml) -> Result<Option<ResourceLimits>, String>,
    R: Fn(&Yaml) -> Result<RestartConfig, String>,
    G: Fn(&Yaml) -> Result<Option<LogConfig>, String>,
>(
    raw: RawServiceConfig,
    name: Seq<char>,
    path: Seq<char>,
    ctx: EvalContext,
    done: EvalContext,
    bash_exists: bool,
    default_user: Option<Seq<char>>,
    env_file: Option<Seq<char>>,
    d: Decoders<H, L, R, G>,
    start: Log,
    l1: Log,
    l2: Log,
    l3: Log,
    m: Marks,
    end: Log,
    out: ServiceConfig,
)
    requires
        service_step(
            raw,
            name,
            path,
            ctx,
            done,
            bash_exists,
            default_user,
            env_file,
            d,
            start,
            l1,
            l2,
            l3,
            m,
            end,
            out,
        ),
    ensures
        raw.restart matches ConfigValue::Static(c) ==> out.restart.the_policy() == c.the_policy(),
        raw.healthcheck matches ConfigValue::Static(h) ==> (h is Some <==> out.healthcheck is Some),
        raw.healthcheck matches ConfigValue::Static(Some(h)) ==> (out.healthcheck matches Some(o)
            && o.interval == h.interval && o.timeout == h.timeout && o.retries == h.retries
            && o.start_period == h.start_period && o.user_identity == h.user_identity),
        raw.logs matches ConfigValue::Static(g) ==> (g is Some <==> out.logs is Some),
        raw.logs matches ConfigValue::Static(Some(g)) ==> (out.logs matches Some(o) && o.store
            == g.store && o.retention == g.retention),
{
    reveal(value_step);
    reveal(crate::config::resolve_service::check_step);
    if let ConfigValue::Static(c) = raw.restart {
        assert forall|given: RestartConfig| cloned(c, given) implies given.the_policy()
            == c.the_policy() by {}
    }
    if let ConfigValue::Static(h) = raw.healthcheck {
        assert forall|given: Option<HealthCheck>| cloned(h, given) implies (given is Some <==> h
            is Some) && (given is Some ==> cloned(h->0, given->0)) by {}
    }
    if let ConfigValue::Static(g) = raw.logs {
        assert forall|given: Option<LogConfig>| cloned(g, given) implies (given is Some <==> g
            is Some) && (given is Some ==> cloned(g->0, given->0)) by {}
    }
}

// ---------------------------------------------------------------------------------------------
// Environments
// ---------------------------------------------------------------------------------------------

/// Known entries are taken one by one, and each sets its variable.
proof fn lemma_known_entries(
    items: Seq<ConfigValue<String>>,
    n: nat,
    field: Seq<char>,
    vars: Map<Seq<char>, Seq<char>>,
    log: Log,
    from: int,
)
    requires
        all_known(items),
        n <= items.len(),
    ensures
        ({
            let run = env_run(text_fields(items), n, field, vars, log, from);
            run.end matches Ok(list) ==> {
                &&& list.len() == n
                &&& forall|i: int| 0 <= i < n ==> #[trigger] list[i] == items[i]->Static_0@
                &&& run.vars == with_entries(vars, list)
            }
        }),
    decreases n,
{
    if n > 0 {
        lemma_known_entries(items, (n - 1) as nat, field, vars, log, from);
        assert(items[n - 1] is Static);
        assert(text_fields(items)[n - 1] == text_field(items[n - 1]));
        let front = env_run(text_fields(items), (n - 1) as nat, field, vars, log, from);
        let run = env_run(text_fields(items), n, field, vars, log, from);
        if let (Ok(done), Ok(list)) = (front.end, run.end) {
            let s = items[n - 1]->Static_0@;
            assert(list == done.push(s));
            assert(list.drop_last() =~= done);
            assert(list.last() == s);
        }
    }
}

/// A known environment is computed as it is written, and leaves its variables behind.
proof fn lemma_known_environment(
    e: EnvironmentEntries,
    field: Seq<char>,
    label: Seq<char>,
    path: Seq<char>,
    ctx0: EvalContext,
    ctx1: EvalContext,
    before: Log,
    after: Log,
    list: Vec<String>,
)
    requires
        environment_step(
            ConfigValue::Static(e),
            field,
            label,
            path,
            ctx0,
            ctx1,
            before,
            after,
            Ok(list),
        ),
        all_known(e.0@),
    ensures
        list@.len() == e.0@.len(),
        forall|i: int| 0 <= i < list@.len() ==> (#[trigger] list@[i])@ == e.0@[i]->Static_0@,
        texts(ctx1.active()@) == with_entries(texts(ctx0.active()@), views(list@)),
{
    let (middle, items) = choose|
        middle: Log,
        items: Result<Vec<ConfigValue<String>>, DaemonError>,
    | #[trigger]
        entries_step(ConfigValue::Static(e), field, label, path, before, middle, items)
            && match items {
            Err(x) => ctx1 == ctx0 && after == middle && Ok::<Vec<String>, DaemonError>(list)
                == Err::<Vec<String>, DaemonError>(x),
            Ok(items) => {
                let run = env_run(
                    text_fields(items@),
                    items@.len(),
                    field,
                    texts(ctx0.active()@),
                    after,
                    middle.len() as int,
                );
                &&& extends(middle, after, run.acts)
                &&& env_ends(Ok(list), path, ctx0, ctx1, run)
            },
        };
    let copy = items->Ok_0;
    assert(text_fields(copy@) == text_fields(e.0@));
    assert(text_fields(copy@).len() == copy@.len());
    assert(text_fields(e.0@).len() == e.0@.len());
    lemma_known_entries(
        e.0@,
        e.0@.len(),
        field,
        texts(ctx0.active()@),
        after,
        middle.len() as int,
    );
    assert forall|i: int| 0 <= i < list@.len() implies (#[trigger] list@[i])@
        == e.0@[i]->Static_0@ by {
        assert(views(list@)[i] == list@[i]@);
    }
}

/// What is left of an entry that sets a variable, unless a later one sets it too.
proof fn lemma_entry_stands(
    list: Vec<String>,
    vars: Map<Seq<char>, Seq<char>>,
    k: int,
    key: Seq<char>,
    value: Seq<char>,
)
    requires
        0 <= k < list@.len(),
        list@[k]@ == key + seq!['='] + value,
        forall|j: int| 0 <= j < key.len() ==> #[trigger] key[j] != '=',
        forall|j: int|
            k < j < list@.len() ==> !((key + seq!['=']).is_prefix_of((#[trigger] list@[j])@)),
    ensures
        with_entries(vars, views(list@)).contains_key(key),
        with_entries(vars, views(list@))[key] == value,
{
    let all = views(list@);
    lemma_split_entry(key, value);
    assert(all[k] == list@[k]@);
    assert forall|j: int| k < j < all.len() implies !(split_once_at(
        #[trigger] all[j],
        '=',
    ) matches Some((n, _)) && n == key) by {
        assert(all[j] == list@[j]@);
        if let Some((n, v)) = split_once_at(all[j], '=') {
            if n == key {
                lemma_split_parts(all[j], n, v);
            }
        }
    }
    lemma_last_entry_wins(vars, all, key, k);
}

/// The known entries of the environment of a service come out as they are written, in order. What
/// is computed after them sees each variable as the last entry with its name sets it.
pub proof fn law_known_environment_comes_out_as_written<
    H: Fn(&Yaml) -> Result<Option<HealthCheck>, String>,
    L: Fn(&Yaml) -> Result<Option<ResourceLimits>, String>,
    R: Fn(&Yaml) -> Result<RestartConfig, String>,
    G: Fn(&Yaml) -> Result<Option<LogConfig>, String>,
>(
    raw: RawServiceConfig,
    name: Seq<char>,
    path: Seq<char>,
    ctx: EvalContext,
    done: EvalContext,
    bash_exists: bool,
    default_user: Option<Seq<char>>,
    env_file: Option<Seq<char>>,
    d: Decoders<H, L, R, G>,
    start: Log,
    l1: Log,
    l2: Log,
    l3: Log,
    m: Marks,
    end: Log,
    out: ServiceConfig,
    entries: EnvironmentEntries,
    k: int,
    key: Seq<char>,
    value: Seq<char>,
)
    requires
        service_step(
            raw,
            name,
            path,
            ctx,
            done,
            bash_exists,
            default_user,
            env_file,
            d,
            start,
            l1,
            l2,
            l3,
            m,
            end,
            out,
        ),
        raw.environment == ConfigValue::Static(entries),
        all_known(entries.0@),
        0 <= k < entries.0@.len(),
        forall|j: int| 0 <= j < key.len() ==> #[trigger] key[j] != '=',
    ensures
        out.environment@.len() == entries.0@.len(),
        out.environment@[k]@ == entries.0@[k]->Static_0@,
        entries.0@[k]->Static_0@ == key + seq!['='] + value && (forall|j: int|
            k < j < entries.0@.len() ==> !((key + seq!['=']).is_prefix_of(
                (#[trigger] entries.0@[j])->Static_0@,
            ))) ==> done.active()@.contains_key(key) && done.active()@[key]@ == value,
{
    let list = choose|list: Vec<String>| #[trigger]
        environment_step(
            raw.environment,
            field_path(name, "environment"@),
            service_label(name),
            path,
            ctx,
            done,
            l1,
            l2,
            Ok(list),
        ) && kept_fields(raw, views(list@), env_file, out);
    lemma_known_environment(
        entries,
        field_path(name, "environment"@),
        service_label(name),
        path,
        ctx,
        done,
        l1,
        l2,
        list,
    );
    assert(views(list@).len() == list@.len());
    assert(views(out.environment@).len() == out.environment@.len());
    assert(views(out.environment@)[k] == out.environment@[k]@);
    assert(views(list@)[k] == list@[k]@);
    if entries.0@[k]->Static_0@ == key + seq!['='] + value && (forall|j: int|
        k < j < entries.0@.len() ==> !((key + seq!['=']).is_prefix_of(
            (#[trigger] entries.0@[j])->Static_0@,
        ))) {
        assert forall|j: int| k < j < list@.len() implies !((key + seq!['=']).is_prefix_of(
            (#[trigger] list@[j])@,
        )) by {
            assert(list@[j]@ == entries.0@[j]->Static_0@);
        }
        lemma_entry_stands(list, texts(ctx.active()@), k, key, value);
        assert(texts(done.active()@).contains_key(key));
    }
}

/// The variables of a file are known as such and set in the context, over those that were there;
/// all others stay.
pub proof fn law_file_variables_are_set(
    ctx: &mut EvalContext,
    vars: NameMap<String>,
    key: Seq<char>,
)
    requires
        call_ensures(add_file_vars, (ctx, &vars), ()),
    ensures
        vars@.contains_key(key) ==> {
            &&& final(ctx).active()@.contains_key(key)
            &&& final(ctx).active()@[key]@ == vars@[key]@
            &&& final(ctx).active_file()@.contains_key(key)
            &&& final(ctx).active_file()@[key]@ == vars@[key]@
        },
        !vars@.contains_key(key) ==> {
            &&& final(ctx).active()@.contains_key(key) <==> old(ctx).active()@.contains_key(key)
            &&& final(ctx).active_file()@.contains_key(key) <==> old(
                ctx).active_file()@.contains_key(key)
            &&& old(ctx).active()@.contains_key(key) ==> final(ctx).active()@[key]@
                == old(ctx).active()@[key]@
        },
{
    let a = texts(final(ctx).active()@);
    let f = texts(final(ctx).active_file()@);
    let a0 = texts(old(ctx).active()@);
    let f0 = texts(old(ctx).active_file()@);
    let v = texts(vars@);
    assert(a.contains_key(key) <==> final(ctx).active()@.contains_key(key));
    assert(f.contains_key(key) <==> final(ctx).active_file()@.contains_key(key));
    assert(a0.contains_key(key) <==> old(ctx).active()@.contains_key(key));
    assert(f0.contains_key(key) <==> old(ctx).active_file()@.contains_key(key));
    assert(v.contains_key(key) <==> vars@.contains_key(key));
    if vars@.contains_key(key) {
        assert(v[key] == vars@[key]@);
        assert(a[key] == final(ctx).active()@[key]@);
        assert(f[key] == final(ctx).active_file()@[key]@);
    } else if old(ctx).active()@.contains_key(key) {
        assert(a0[key] == old(ctx).active()@[key]@);
        assert(a[key] == final(ctx).active()@[key]@);
    }
}

/// An environment file that is not there sets nothing.
pub proof fn law_missing_file_sets_nothing(
    ctx: &mut EvalContext,
    file: &str,
    owner: &str,
    r: Result<(), DaemonError>,
)
    requires
        call_ensures(add_env_file, (ctx, file, None, owner), r),
    ensures
        r is Ok,
        *final(ctx) == *old(ctx),
{
}

// ---------------------------------------------------------------------------------------------
// Processes
// ---------------------------------------------------------------------------------------------

/// The process of a script hook is its script and no command, and that of a command hook its
/// command and no script; the rest is what the hook is configured with.
pub proof fn law_process_of_a_hook(hook: HookCommand, r: ResolvableCommand<'_>)
    requires
        call_ensures(ResolvableCommand::from_hook, (&hook,), r),
    ensures
        hook matches HookCommand::Script { run, common } ==> {
            &&& run matches ConfigValue::Static(s) ==> r.run == ConfigValue::Static(Some(s))
            &&& run matches ConfigValue::Dynamic(e) ==> (r.run matches ConfigValue::Dynamic(x)
                && x@ == e@)
            &&& r.command matches ConfigValue::Static(words)
            &&& words@.len() == 0
            &&& *r.user == common.user
            &&& *r.groups == common.groups
            &&& *r.working_dir == common.working_dir
            &&& *r.environment == common.environment
            &&& *r.env_file == common.env_file
            &&& *r.limits == common.limits
        },
        hook matches HookCommand::Command { command, common } ==> {
            &&& r.run == ConfigValue::Static(None::<String>)
            &&& same_text_list(command, r.command)
            &&& *r.user == common.user
            &&& *r.groups == common.groups
            &&& *r.working_dir == common.working_dir
            &&& *r.environment == common.environment
            &&& *r.env_file == common.env_file
            &&& *r.limits == common.limits
        },
{
    if let HookCommand::Command { command, common } = hook {
        lemma_text_list_cloned(command, r.command);
    }
}

/// The process of a service is what the service is configured with.
pub proof fn law_process_of_a_service(raw: RawServiceConfig, r: ResolvableCommand<'_>)
    requires
        call_ensures(ResolvableCommand::from_service, (&raw,), r),
    ensures
        same_field(raw.run, r.run),
        same_text_list(raw.command, r.command),
        *r.user == raw.user,
        *r.groups == raw.groups,
        *r.working_dir == raw.working_dir,
        *r.environment == raw.environment,
        *r.env_file == raw.env_file,
        *r.limits == raw.limits,
{
    lemma_text_option_cloned(raw.run, r.run);
    lemma_text_list_cloned(raw.command, r.command);
}

/// A process with known fields runs with them: its script in the shell, its command as it is
/// written, in its directory seen from that of the configuration, as its user, in its groups and
/// within its limits. Without a directory it runs in that of the configuration.
pub proof fn law_known_process_runs_as_written<
    L: Fn(&Yaml) -> Result<Option<ResourceLimits>, String>,
>(
    c: ResolvableCommand<'_>,
    prefix: Seq<char>,
    path: Seq<char>,
    config_dir: Seq<char>,
    ctx: EvalContext,
    done: EvalContext,
    bash_exists: bool,
    decode: L,
    start: Log,
    l1: Log,
    l2: Log,
    l3: Log,
    l4: Log,
    l5: Log,
    l6: Log,
    l7: Log,
    end: Log,
    out: CommandSpec,
    dir: &str,
    sub: &str,
    joined: String,
)
    requires
        process_step(
            c,
            prefix,
            path,
            config_dir,
            ctx,
            done,
            bash_exists,
            decode,
            start,
            l1,
            l2,
            l3,
            l4,
            l5,
            l6,
            l7,
            end,
            out,
        ),
        call_ensures(join, (dir, sub), joined),
        dir@ == config_dir,
    ensures
        *c.working_dir == ConfigValue::Static(None::<String>) ==> out.working_dir@ == config_dir,
        *c.working_dir matches ConfigValue::Static(Some(w)) ==> (w@ == sub@ ==> out.working_dir@
            == joined@),
        *c.user matches ConfigValue::Static(u) ==> out.user == u,
        *c.limits matches ConfigValue::Static(l) ==> out.limits == l,
        *c.groups matches ConfigValue::Static(items) ==> (all_known(items@) ==> out.groups@.len()
            == items@.len() && forall|i: int|
            0 <= i < items@.len() ==> (#[trigger] out.groups@[i])@ == items@[i]->Static_0@),
        c.run == ConfigValue::Static(None::<String>) ==> (c.command matches ConfigValue::Static(
            items,
        ) ==> (all_known(items@) ==> out.program_and_args@.len() == items@.len() && forall|i: int|
            0 <= i < items@.len() ==> (#[trigger] out.program_and_args@[i])@
                == items@[i]->Static_0@)),
        out.environment.keys() == done.active().keys(),
{
    reveal(value_step);
    let build = build_act(done, false);
    let w = choose|w: Option<String>| #[trigger]
        value_step(
            *c.working_dir,
            prefix,
            "working_dir"@,
            path,
            build,
            crate::config::read::read_opt_text,
            l4,
            l5,
            Ok(w),
        ) && out.working_dir@ == directory(config_dir, w);
    if let ConfigValue::Static(v) = *c.working_dir {
        assert(cloned(v, w));
        lemma_optional_text_cloned(v, w);
    }
    if let ConfigValue::Static(v) = *c.user {
        assert(cloned(v, out.user));
        lemma_optional_text_cloned(v, out.user);
    }
    if let ConfigValue::Static(v) = *c.limits {
        assert(cloned(v, out.limits));
        if let (Some(a), Some(b)) = (v, out.limits) {
            assert(cloned(a, b));
        }
    }
    if let ConfigValue::Static(items) = *c.groups {
        if all_known(items@) {
            lemma_known_texts(items, prefix, "groups"@, path, build, l6, l7, out.groups);
        }
    }
    if c.run == ConfigValue::Static(None::<String>) {
        if let ConfigValue::Static(items) = c.command {
            if all_known(items@) {
                lemma_known_texts(
                    items,
                    prefix,
                    "command"@,
                    path,
                    build,
                    l3,
                    l4,
                    out.program_and_args,
                );
            }
        }
    }
}

/// A process sees every variable of the context, with its value.
pub proof fn law_process_sees_the_variables<
    L: Fn(&Yaml) -> Result<Option<ResourceLimits>, String>,
>(
    c: ResolvableCommand<'_>,
    prefix: Seq<char>,
    path: Seq<char>,
    config_dir: Seq<char>,
    ctx: EvalContext,
    done: EvalContext,
    bash_exists: bool,
    decode: L,
    start: Log,
    l1: Log,
    l2: Log,
    l3: Log,
    l4: Log,
    l5: Log,
    l6: Log,
    l7: Log,
    end: Log,
    out: CommandSpec,
    i: int,
)
    requires
        process_step(
            c,
            prefix,
            path,
            config_dir,
            ctx,
            done,
            bash_exists,
            decode,
            start,
            l1,
            l2,
            l3,
            l4,
            l5,
            l6,
            l7,
            end,
            out,
        ),
        0 <= i < done.active().values().len(),
    ensures
        out.environment.keys() == done.active().keys(),
        out.environment.values().len() == done.active().values().len(),
        out.environment.values()[i]@ == done.active().values()[i]@,
{
    if out.environment != done.active() {
        assert(cloned::<String>(done.active().values()[i], out.environment.values()[i]));
    }
}

// ---------------------------------------------------------------------------------------------
// Health checks, restarts and logs
// ---------------------------------------------------------------------------------------------

/// Whether a field is the list of these known texts.
pub open spec fn lists_texts(c: ConfigValue<Vec<ConfigValue<String>>>, texts: Seq<Seq<char>>) -> bool {
    c matches ConfigValue::Static(items) && items@.len() == texts.len() && forall|i: int|
        0 <= i < texts.len() ==> ((#[trigger] items@[i]) matches ConfigValue::Static(s) && s@
            == texts[i])
}

/// A list of known texts lists them.
proof fn lemma_lists(c: ConfigValue<Vec<ConfigValue<String>>>, list: Vec<String>)
    requires
        known_list(c, list@),
    ensures
        lists_texts(c, views(list@)),
{
    let items = c->Static_0;
    assert(views(list@).len() == list@.len());
    assert forall|i: int| 0 <= i < list@.len() implies (
    (#[trigger] items@[i]) matches ConfigValue::Static(s) && s@ == views(list@)[i]) by {
        assert(items@[i] == ConfigValue::Static(list@[i]));
    }
}

/// The script of a health check is run by the shell and is no script any more; without a script
/// its known command stays. Its known user and groups stay, and so do its times and the number of
/// failures that it allows.
pub proof fn law_known_health_check_is_kept<S: Scripts>(
    hc: HealthCheck,
    scripts: &mut S,
    ctx: EvalContext,
    path: &str,
    prefix: &str,
    shell: String,
    out: HealthCheck,
)
    requires
        call_ensures(
            resolve_health_check::<S>,
            (hc, scripts, &ctx, path, prefix, shell),
            Ok::<HealthCheck, DaemonError>(out),
        ),
    ensures
        out.interval == hc.interval,
        out.timeout == hc.timeout,
        out.retries == hc.retries,
        out.start_period == hc.start_period,
        hc.run matches ConfigValue::Static(Some(s)) ==> out.run == ConfigValue::Static(
            None::<String>,
        ) && lists_texts(out.command, seq![shell@, "-c"@, s@]),
        hc.run == ConfigValue::Static(None::<String>) ==> (hc.command matches ConfigValue::Static(
            items,
        ) ==> (all_known(items@) ==> lists_texts(
            out.command,
            Seq::new(items@.len(), |i: int| items@[i]->Static_0@),
        ))),
        hc.user matches ConfigValue::Static(u) ==> out.user == ConfigValue::Static(u),
        hc.groups matches ConfigValue::Static(items) ==> (all_known(items@) ==> lists_texts(
            out.groups,
            Seq::new(items@.len(), |i: int| items@[i]->Static_0@),
        )),
{
    reveal(check_step);
    reveal(value_step);
    let build = build_act(ctx, false);
    let l0 = old(scripts).log();
    let l3 = final(scripts).log();
    let (l1, l2) = choose|one: Log, two: Log| #[trigger]
        check_step(hc, prefix@, path@, build, shell@, l0, one, two, l3, out);
    match hc.run {
        ConfigValue::Static(Some(s)) => {
            let script = choose|script: Option<String>| #[trigger]
                value_step(
                    hc.run,
                    prefix@,
                    "run"@,
                    path@,
                    build,
                    crate::config::read::read_opt_text,
                    l0,
                    l1,
                    Ok(script),
                ) && match script {
                    Some(s) => exists|list: Vec<String>| #[trigger]
                        known_list(out.command, list@) && views(list@) == script_command(
                            shell@,
                            s@,
                        ),
                    None => out.command == hc.command,
                };
            assert(cloned(Some(s), script));
            lemma_optional_text_cloned(Some(s), script);
            let list = choose|list: Vec<String>| #[trigger]
                known_list(out.command, list@) && views(list@) == script_command(shell@, s@);
            lemma_lists(out.command, list);
        },
        ConfigValue::Static(None) => {
            let list = choose|list: Vec<String>| #[trigger]
                texts_step(hc.command, prefix@, "command"@, path@, build, l0, l1, Ok(list))
                    && known_list(out.command, list@);
            if let ConfigValue::Static(items) = hc.command {
                if all_known(items@) {
                    lemma_known_texts(items, prefix@, "command"@, path@, build, l0, l1, list);
                    lemma_lists(out.command, list);
                    assert(views(list@) =~= Seq::new(
                        items@.len(),
                        |i: int| items@[i]->Static_0@,
                    ));
                }
            }
        },
        _ => {},
    }
    if let ConfigValue::Static(u) = hc.user {
        let v = out.user->Static_0;
        assert(cloned(u, v));
        lemma_optional_text_cloned(u, v);
    }
    let list = choose|list: Vec<String>| #[trigger]
        texts_step(hc.groups, prefix@, "groups"@, path@, build, l2, l3, Ok(list)) && known_list(
            out.groups,
            list@,
        );
    if let ConfigValue::Static(items) = hc.groups {
        if all_known(items@) {
            lemma_known_texts(items, prefix@, "groups"@, path@, build, l2, l3, list);
            lemma_lists(out.groups, list);
            assert(views(list@) =~= Seq::new(items@.len(), |i: int| items@[i]->Static_0@));
        }
    }
}

/// Known restart settings are kept: the policy, and with it the patterns of watched files.
pub proof fn law_known_restart_is_kept<S: Scripts, R: Fn(&Yaml) -> Result<RestartConfig, String>>(
    c: RestartConfig,
    scripts: &mut S,
    ctx: EvalContext,
    path: &str,
    prefix: &str,
    decode: R,
    out: RestartConfig,
)
    requires
        call_ensures(
            resolve_restart::<S, R>,
            (&ConfigValue::Static(c), scripts, &ctx, path, prefix, &decode),
            Ok::<RestartConfig, DaemonError>(out),
        ),
    ensures
        c matches RestartConfig::Simple(p) ==> out == RestartConfig::Simple(p),
        c matches RestartConfig::Extended { policy, watch } ==> (
        out matches RestartConfig::Extended { policy: p, watch: w } && p == policy && (
        watch matches ConfigValue::Static(items) ==> (all_known(items@) ==> lists_texts(
            w,
            Seq::new(items@.len(), |i: int| items@[i]->Static_0@),
        )))),
{
    reveal(value_step);
    let build = build_act(ctx, false);
    let l0 = old(scripts).log();
    let l2 = final(scripts).log();
    let l1 = choose|one: Log| #[trigger]
        restart_step(
            ConfigValue::Static(c),
            prefix@,
            path@,
            build,
            decode,
            l0,
            one,
            l2,
            out,
        );
    let given = choose|given: RestartConfig| #[trigger]
        value_step(
            ConfigValue::Static(c),
            prefix@,
            "restart"@,
            path@,
            build,
            decode,
            l0,
            l1,
            Ok(given),
        ) && watch_step(given, prefix@, path@, build, l1, l2, out);
    assert(cloned(c, given));
    if let (
        RestartConfig::Extended { policy: a, watch: v },
        RestartConfig::Extended { policy: b, watch: w },
    ) = (c, given) {
        assert(c != given ==> cloned(v, w));
        if c != given {
            lemma_text_list_cloned(v, w);
        }
        let list = choose|list: Vec<String>| #[trigger]
            texts_step(w, prefix@, "restart.watch"@, path@, build, l1, l2, Ok(list)) && known_list(
                out->watch,
                list@,
            );
        if let ConfigValue::Static(items) = v {
            if all_known(items@) {
                let copy = w->Static_0;
                assert(text_fields(copy@) == text_fields(items@));
                assert(text_fields(copy@).len() == copy@.len());
                assert(text_fields(items@).len() == items@.len());
                assert forall|i: int| 0 <= i < copy@.len() implies (#[trigger] copy@[i]) is Static
                    && copy@[i]->Static_0@ == items@[i]->Static_0@ by {
                    assert(items@[i] is Static);
                    assert(text_fields(copy@)[i] == text_field(copy@[i]));
                    assert(text_fields(items@)[i] == text_field(items@[i]));
                }
                lemma_known_texts(copy, prefix@, "restart.watch"@, path@, build, l1, l2, list);
                lemma_lists(out->watch, list);
                assert(views(list@) =~= Seq::new(items@.len(), |i: int| items@[i]->Static_0@));
            }
        }
    }
}

/// Known log settings are kept: what is stored and retained, and the sizes.
pub proof fn law_known_log_settings_are_kept<
    S: Scripts,
    G: Fn(&Yaml) -> Result<Option<LogConfig>, String>,
>(
    g: LogConfig,
    scripts: &mut S,
    ctx: EvalContext,
    path: &str,
    prefix: &str,
    decode: G,
    out: Option<LogConfig>,
)
    requires
        call_ensures(
            resolve_logs::<S, G>,
            (&ConfigValue::Static(Some(g)), scripts, &ctx, path, prefix, &decode),
            Ok::<Option<LogConfig>, DaemonError>(out),
        ),
    ensures
        out matches Some(o) && {
            &&& o.store == g.store
            &&& o.retention == g.retention
            &&& g.max_size matches ConfigValue::Static(s) ==> o.max_size == ConfigValue::Static(s)
            &&& g.buffer_size matches ConfigValue::Static(n) ==> o.buffer_size
                == ConfigValue::Static(n)
        },
{
    reveal(value_step);
    let build = build_act(ctx, false);
    let l0 = old(scripts).log();
    let l3 = final(scripts).log();
    let (l1, l2) = choose|one: Log, two: Log| #[trigger]
        logs_step(
            ConfigValue::Static(Some(g)),
            prefix@,
            path@,
            build,
            decode,
            l0,
            one,
            two,
            l3,
            out,
        );
    assert forall|given: Option<LogConfig>| cloned(Some(g), given) implies given is Some && cloned(
        g,
        given->0,
    ) by {}
    assert forall|given: LogConfig| #[trigger] cloned(g, given) implies same_field(
        g.max_size,
        given.max_size,
    ) && (g.buffer_size matches ConfigValue::Static(n) ==> given.buffer_size
        == ConfigValue::Static(n)) && given.store == g.store && given.retention == g.retention by {
        if g != given {
            lemma_text_option_cloned(g.max_size, given.max_size);
            if let (ConfigValue::Static(a), ConfigValue::Static(b)) = (
                g.buffer_size,
                given.buffer_size,
            ) {
                assert(cloned(a, b));
                if let (Some(x), Some(y)) = (a, b) {
                    assert(cloned(x, y));
                }
            }
        }
    }
    assert forall|a: Option<String>, b: Option<String>| #[trigger] cloned(a, b) implies a == b by {
        lemma_optional_text_cloned(a, b);
    }
    assert forall|a: Option<usize>, b: Option<usize>| #[trigger] cloned(a, b) implies a == b by {
        if let (Some(x), Some(y)) = (a, b) {
            assert(cloned(x, y));
        }
    }
}

// ---------------------------------------------------------------------------------------------
// What is asked for computed fields
// ---------------------------------------------------------------------------------------------

/// The code of a field of a service runs once, under the path of the field: that of the service, a
/// dot and the name of the field.
pub proof fn law_code_runs_under_the_path_of_its_field<
    T: Clone,
    S: Scripts,
    F: Fn(&Yaml) -> Result<T, String>,
>(
    code: String,
    scripts: &mut S,
    ctx: EvalContext,
    path: &str,
    prefix: &str,
    field: &str,
    decode: F,
    r: Result<T, DaemonError>,
)
    requires
        call_ensures(
            resolve_value::<T, S, F>,
            (
                &ConfigValue::Dynamic(Box::new(DynamicExpr::Lua(code))),
                scripts,
                &ctx,
                path,
                prefix,
                field,
                &decode,
            ),
            r,
        ),
    ensures
        final(scripts).log().len() == old(scripts).log().len() + 1,
        final(scripts).log().last().0 == (Act::Run {
            form: Form::Block,
            code: code@,
            chunk: prefix@ + "."@ + field@,
        }),
        final(scripts).log().last().1 is Fault ==> r is Err,
{
    reveal(value_step);
    let log = final(scripts).log();
    let from = old(scripts).log().len() as int;
    let e = DynamicExpr::Lua(code);
    let place = field_path(prefix@, field@);
    let build = build_act(ctx, false);
    let run = crate::config::evaluate::leaf_run(e@, place, true, build, log, from);
    assert(run.acts.len() == 1);
    assert(run.acts[0] == (Act::Run { form: Form::Block, code: code@, chunk: place }));
    assert(log.last() == log[from]);
}

/// The code of an item of a list runs under the path of the list with the place of the item in
/// brackets, counted from zero.
pub proof fn law_code_runs_under_the_path_of_its_item(
    items: Seq<ConfigValue<String>>,
    k: int,
    field: Seq<char>,
    build: Act,
    log: Log,
    from: int,
    code: String,
)
    requires
        0 <= k < items.len(),
        all_known(items.take(k)),
        items[k] == ConfigValue::<String>::Dynamic(Box::new(DynamicExpr::Lua(code))),
    ensures
        ({
            let run = texts_run(
                text_fields(items),
                (k + 1) as nat,
                field,
                true,
                build,
                log,
                from,
            );
            run.acts == seq![
                Act::Run {
                    form: Form::Block,
                    code: code@,
                    chunk: field + "["@ + decimal(k as nat) + "]"@,
                },
            ]
        }),
{
    lemma_known_front(items, k as nat, k, field, build, log, from);
    let c = text_fields(items)[k];
    assert(c == text_field(items[k]));
    let run = texts_run(text_fields(items), (k + 1) as nat, field, true, build, log, from);
    assert(run.acts =~= seq![
        Act::Run {
            form: Form::Block,
            code: code@,
            chunk: field + "["@ + decimal(k as nat) + "]"@,
        },
    ]);
}

/// Known items in front ask nothing.
proof fn lemma_known_front(
    items: Seq<ConfigValue<String>>,
    n: nat,
    k: int,
    field: Seq<char>,
    build: Act,
    log: Log,
    from: int,
)
    requires
        n <= k <= items.len(),
        all_known(items.take(k)),
    ensures
        ({
            let run = texts_run(text_fields(items), n, field, true, build, log, from);
            run.acts.len() == 0 && run.built && run.end is Ok
        }),
    decreases n,
{
    if n > 0 {
        lemma_known_front(items, (n - 1) as nat, k, field, build, log, from);
        assert(items.take(k)[n - 1] is Static);
        assert(text_fields(items)[n - 1] == text_field(items[n - 1]));
    }
}

/// Known entries of an environment are shown to scripts one by one, in order, each by its name and
/// with its value.
pub proof fn law_entries_are_shown_one_by_one(
    items: Seq<ConfigValue<String>>,
    n: nat,
    field: Seq<char>,
    vars: Map<Seq<char>, Seq<char>>,
    log: Log,
    from: int,
    k: int,
    key: Seq<char>,
    value: Seq<char>,
)
    requires
        all_known(items),
        n <= items.len(),
        forall|i: int|
            0 <= i < items.len() ==> split_once_at((#[trigger] items[i])->Static_0@, '=') is Some,
        env_run(text_fields(items), n, field, vars, log, from).end is Ok,
        0 <= k < n,
        items[k]->Static_0@ == key + seq!['='] + value,
        forall|j: int| 0 <= j < key.len() ==> #[trigger] key[j] != '=',
    ensures
        env_run(text_fields(items), n, field, vars, log, from).acts.len() == n,
        env_run(text_fields(items), n, field, vars, log, from).acts[k] == (Act::Assign {
            name: key,
            value,
        }),
{
    lemma_split_entry(key, value);
    lemma_shown(items, n, field, vars, log, from, k);
}

/// What is asked for known entries.
proof fn lemma_shown(
    items: Seq<ConfigValue<String>>,
    n: nat,
    field: Seq<char>,
    vars: Map<Seq<char>, Seq<char>>,
    log: Log,
    from: int,
    k: int,
)
    requires
        all_known(items),
        n <= items.len(),
        forall|i: int|
            0 <= i < items.len() ==> split_once_at((#[trigger] items[i])->Static_0@, '=') is Some,
        env_run(text_fields(items), n, field, vars, log, from).end is Ok,
    ensures
        env_run(text_fields(items), n, field, vars, log, from).acts.len() == n,
        0 <= k < n ==> env_run(text_fields(items), n, field, vars, log, from).acts[k]
            == (Act::Assign {
            name: (split_once_at(items[k]->Static_0@, '=')->0).0,
            value: (split_once_at(items[k]->Static_0@, '=')->0).1,
        }),
    decreases n,
{
    if n > 0 {
        assert(items[n - 1] is Static);
        assert(text_fields(items)[n - 1] == text_field(items[n - 1]));
        assert(split_once_at(items[n - 1]->Static_0@, '=') is Some);
        lemma_shown(items, (n - 1) as nat, field, vars, log, from, k);
    }
}

/// A service that is not configured is reported by its name, and nothing is asked for it; one that
/// is computed has the hooks and the dependencies that it is configured with.
pub proof fn law_computed_service<
    S: Scripts,
    H: Fn(&Yaml) -> Result<Option<HealthCheck>, String>,
    L: Fn(&Yaml) -> Result<Option<ResourceLimits>, String>,
    R: Fn(&Yaml) -> Result<RestartConfig, String>,
    G: Fn(&Yaml) -> Result<Option<LogConfig>, String>,
>(
    config: KeplerConfig,
    name: &str,
    ctx: &mut EvalContext,
    scripts: &mut S,
    path: &str,
    default_user: Option<&str>,
    env_file: Option<String>,
    bash_exists: bool,
    d: Decoders<H, L, R, G>,
    r: Result<ServiceConfig, DaemonError>,
)
    requires
        call_ensures(
            KeplerConfig::resolve_service::<S, H, L, R, G>,
            (&config, name, ctx, scripts, path, default_user, env_file, bash_exists, &d),
            r,
        ),
    ensures
        !config.services@.contains_key(name@) ==> (r matches Err(DaemonError::ServiceNotFound(n))
            && n@ == name@) && final(scripts).log() == old(scripts).log(),
        r matches Ok(out) ==> {
            let raw = config.services@[name@];
            &&& raw.hooks is Some <==> out.hooks is Some
            &&& raw.hooks matches Some(h) ==> same_hook_list(h.pre_start, out.hooks->0.pre_start)
                && same_hook_list(h.post_exit, out.hooks->0.post_exit)
            &&& out.depends_on.rules() == raw.depends_on.rules()
        },
{
}

} // verus!
