//! Computing the configuration of a service when it starts.
use vstd::prelude::*;
use vstd::string::*;
use crate::config::config_value::ConfigValue;
use crate::config::evaluate::build_act;
use crate::config::health::{is_option_given, option_given, HealthCheck};
use crate::config::logs::LogConfig;
use crate::config::read::{read_opt_size, read_opt_text};
use crate::config::resolve::{field_step, list_step, resolve_nested_vec, Log};
use crate::config::resources::ResourceLimits;
use crate::config::restart::RestartConfig;
use crate::errors::DaemonError;
use crate::lua_eval::{Act, EvalContext, Scripts};
use crate::text::{concat3, views};
use crate::value::Yaml;

verus! {

/// How the values of fields that are more than a text, a number or a list of texts are read out
/// of trees.
pub struct Decoders<H, L, R, G> {
    pub health_check: H,
    pub limits: L,
    pub restart: R,
    pub logs: G,
}

/// Whether values can be read out of every tree.
pub open spec fn decoders_ready<
    H: Fn(&Yaml) -> Result<Option<HealthCheck>, String>,
    L: Fn(&Yaml) -> Result<Option<ResourceLimits>, String>,
    R: Fn(&Yaml) -> Result<RestartConfig, String>,
    G: Fn(&Yaml) -> Result<Option<LogConfig>, String>,
>(d: Decoders<H, L, R, G>) -> bool {
    &&& forall|y: Yaml| #[trigger] call_requires(d.health_check, (&y,))
    &&& forall|y: Yaml| #[trigger] call_requires(d.limits, (&y,))
    &&& forall|y: Yaml| #[trigger] call_requires(d.restart, (&y,))
    &&& forall|y: Yaml| #[trigger] call_requires(d.logs, (&y,))
}

/// The path of a field.
pub open spec fn field_path(prefix: Seq<char>, field: Seq<char>) -> Seq<char> {
    prefix + "."@ + field
}

/// The path of a field.
pub fn path_of_field(prefix: &str, field: &str) -> (r: String)
    ensures
        r@ == field_path(prefix@, field@),
{
    concat3(prefix, ".", field)
}

/// The command that runs a script.
pub open spec fn script_command(shell: Seq<char>, script: Seq<char>) -> Seq<Seq<char>> {
    seq![shell, "-c"@, script]
}

/// The command that runs a script.
fn command_for(shell: String, script: String) -> (r: Vec<String>)
    ensures
        views(r@) == script_command(shell@, script@),
{
    let mut out: Vec<String> = Vec::new();
    out.push(shell);
    out.push("-c".to_owned());
    out.push(script);
    assert(views(out@) =~= script_command(shell@, script@));
    out
}

/// Whether computing a command may take the record from `before` to `after` and give `r`: a
/// script is run by the shell, and without a script the command is what is given.
pub open spec fn command_step(
    run: ConfigValue<Option<String>>,
    command: ConfigValue<Vec<ConfigValue<String>>>,
    prefix: Seq<char>,
    path: Seq<char>,
    build: Act,
    shell: Seq<char>,
    before: Log,
    after: Log,
    r: Result<Vec<String>, DaemonError>,
) -> bool {
    if option_given(run) {
        exists|script: Result<Option<String>, DaemonError>| #[trigger]
            value_step(run, prefix, "run"@, path, build, read_opt_text, before, after, script)
                && match script {
                Ok(Some(s)) => r matches Ok(list) && views(list@) == script_command(shell, s@),
                Ok(None) => r matches Ok(list) && list@.len() == 0,
                Err(e) => r == Err::<Vec<String>, DaemonError>(e),
            }
    } else {
        texts_step(command, prefix, "command"@, path, build, before, after, r)
    }
}

/// Whether computing a field may give `r` where scripts see the context.
#[verifier::opaque]
pub open spec fn value_step<T: Clone, F: Fn(&Yaml) -> Result<T, String>>(
    c: ConfigValue<T>,
    prefix: Seq<char>,
    field: Seq<char>,
    path: Seq<char>,
    build: Act,
    decode: F,
    before: Log,
    after: Log,
    r: Result<T, DaemonError>,
) -> bool {
    field_step(c, field_path(prefix, field), path, build, decode, before, after, true, true, r)
}

/// Whether computing a list of texts may give `r` where scripts see the context.
#[verifier::opaque]
pub open spec fn texts_step(
    c: ConfigValue<Vec<ConfigValue<String>>>,
    prefix: Seq<char>,
    field: Seq<char>,
    path: Seq<char>,
    build: Act,
    before: Log,
    after: Log,
    r: Result<Vec<String>, DaemonError>,
) -> bool {
    list_step(c, field_path(prefix, field), path, build, before, after, true, true, r)
}

/// Whether computing a field may take the record from `before` to `after` without a fault.
pub open spec fn value_passes<T: Clone, F: Fn(&Yaml) -> Result<T, String>>(
    c: ConfigValue<T>,
    prefix: Seq<char>,
    field: Seq<char>,
    path: Seq<char>,
    build: Act,
    decode: F,
    before: Log,
    after: Log,
) -> bool {
    exists|v: T| #[trigger]
        value_step(c, prefix, field, path, build, decode, before, after, Ok(v))
}

/// Whether computing a list of texts may take the record from `before` to `after` without a
/// fault.
pub open spec fn texts_pass(
    c: ConfigValue<Vec<ConfigValue<String>>>,
    prefix: Seq<char>,
    field: Seq<char>,
    path: Seq<char>,
    build: Act,
    before: Log,
    after: Log,
) -> bool {
    exists|list: Vec<String>| #[trigger]
        texts_step(c, prefix, field, path, build, before, after, Ok(list))
}

/// Whether computing a command may take the record from `before` to `after` without a fault.
pub open spec fn command_passes(
    run: ConfigValue<Option<String>>,
    command: ConfigValue<Vec<ConfigValue<String>>>,
    prefix: Seq<char>,
    path: Seq<char>,
    build: Act,
    shell: Seq<char>,
    before: Log,
    after: Log,
) -> bool {
    exists|list: Vec<String>| #[trigger]
        command_step(run, command, prefix, path, build, shell, before, after, Ok(list))
}

/// The value of a field where scripts see the context.
pub fn resolve_value<T: Clone, S: Scripts, F: Fn(&Yaml) -> Result<T, String>>(
    c: &ConfigValue<T>,
    scripts: &mut S,
    ctx: &EvalContext,
    config_path: &str,
    prefix: &str,
    field: &str,
    decode: &F,
) -> (r: Result<T, DaemonError>)
    requires
        forall|y: Yaml| #[trigger] call_requires(*decode, (&y,)),
    ensures
        value_step(
            *c,
            prefix@,
            field@,
            config_path@,
            build_act(*ctx, false),
            *decode,
            old(scripts).log(),
            final(scripts).log(),
            r,
        ),
{
    reveal(value_step);
    let mut built = true;
    let place = path_of_field(prefix, field);
    let r = c.resolve_with_env(scripts, ctx, config_path, place.as_str(), &mut built, decode);
    proof {
        lemma_still_built(
            *c,
            place@,
            config_path@,
            build_act(*ctx, false),
            *decode,
            old(scripts).log(),
            scripts.log(),
            built,
            r,
        );
    }
    r
}

/// The texts of a list where scripts see the context.
pub fn resolve_texts<S: Scripts>(
    c: &ConfigValue<Vec<ConfigValue<String>>>,
    scripts: &mut S,
    ctx: &EvalContext,
    config_path: &str,
    prefix: &str,
    field: &str,
) -> (r: Result<Vec<String>, DaemonError>)
    ensures
        texts_step(
            *c,
            prefix@,
            field@,
            config_path@,
            build_act(*ctx, false),
            old(scripts).log(),
            final(scripts).log(),
            r,
        ),
{
    reveal(texts_step);
    let mut built = true;
    let place = path_of_field(prefix, field);
    let r = resolve_nested_vec(c, scripts, ctx, config_path, place.as_str(), &mut built);
    proof {
        lemma_list_still_built(
            *c,
            place@,
            config_path@,
            build_act(*ctx, false),
            old(scripts).log(),
            scripts.log(),
            built,
            r,
        );
    }
    r
}

/// The command of a process. Scripts must see the context already.
pub fn resolve_command<S: Scripts>(
    run: &ConfigValue<Option<String>>,
    command: &ConfigValue<Vec<ConfigValue<String>>>,
    scripts: &mut S,
    ctx: &EvalContext,
    config_path: &str,
    prefix: &str,
    shell: String,
) -> (r: Result<Vec<String>, DaemonError>)
    ensures
        command_step(
            *run,
            *command,
            prefix@,
            config_path@,
            build_act(*ctx, false),
            shell@,
            old(scripts).log(),
            final(scripts).log(),
            r,
        ),
{
    if is_option_given(run) {
        let script = resolve_value(
            run,
            scripts,
            ctx,
            config_path,
            prefix,
            "run",
            &read_opt_text,
        );
        let ghost found = script;
        assert(value_step(
            *run,
            prefix@,
            "run"@,
            config_path@,
            build_act(*ctx, false),
            read_opt_text,
            old(scripts).log(),
            scripts.log(),
            found,
        ));
        match script {
            Ok(Some(s)) => Ok(command_for(shell, s)),
            Ok(None) => Ok(Vec::new()),
            Err(e) => Err(e),
        }
    } else {
        resolve_texts(command, scripts, ctx, config_path, prefix, "command")
    }
}

/// Once scripts see the context, they see it after a field is computed.
pub proof fn lemma_still_built<T: Clone, F: Fn(&Yaml) -> Result<T, String>>(
    c: ConfigValue<T>,
    field: Seq<char>,
    path: Seq<char>,
    build: Act,
    decode: F,
    before: Log,
    after: Log,
    built: bool,
    r: Result<T, DaemonError>,
)
    requires
        field_step(c, field, path, build, decode, before, after, true, built, r),
    ensures
        built,
{
}

/// Once scripts see the context, they see it after a list is computed.
pub proof fn lemma_list_still_built(
    c: ConfigValue<Vec<ConfigValue<String>>>,
    field: Seq<char>,
    path: Seq<char>,
    build: Act,
    before: Log,
    after: Log,
    built: bool,
    r: Result<Vec<String>, DaemonError>,
)
    requires
        list_step(c, field, path, build, before, after, true, built, r),
    ensures
        built,
{
    let (middle, b, items) = choose|
        middle: Log,
        b: bool,
        items: Result<Vec<ConfigValue<String>>, DaemonError>,
    | #[trigger]
        field_step(
            c,
            field,
            path,
            build,
            crate::config::read::read_text_list,
            before,
            middle,
            true,
            b,
            items,
        ) && crate::config::resolve::items_step(
            items,
            field,
            path,
            build,
            middle,
            after,
            b,
            built,
            r,
        );
    if let Ok(list) = items {
        lemma_texts_built(
            crate::config::environment::text_fields(list@),
            list@.len(),
            field,
            build,
            after,
            middle.len() as int,
        );
    }
}

proof fn lemma_texts_built(
    items: Seq<crate::config::environment::TextField>,
    n: nat,
    field: Seq<char>,
    build: Act,
    log: Log,
    from: int,
)
    ensures
        crate::config::resolve::texts_run(items, n, field, true, build, log, from).built,
    decreases n,
{
    if n > 0 && n <= items.len() {
        lemma_texts_built(items, (n - 1) as nat, field, build, log, from);
    }
}

/// A list of known texts.
pub open spec fn known_list(c: ConfigValue<Vec<ConfigValue<String>>>, list: Seq<String>) -> bool {
    c matches ConfigValue::Static(items) && items@ == list.map_values(
        |t: String| ConfigValue::Static(t),
    )
}

/// Whether the command of a health check may be computed as that of `out`. A script replaces the
/// command; a script that is computed as nothing leaves the command as it is.
pub open spec fn check_command_step(
    hc: HealthCheck,
    prefix: Seq<char>,
    path: Seq<char>,
    build: Act,
    shell: Seq<char>,
    before: Log,
    after: Log,
    out: HealthCheck,
) -> bool {
    if option_given(hc.run) {
        &&& out.run == ConfigValue::Static(None::<String>)
        &&& exists|script: Option<String>| #[trigger]
            value_step(
                hc.run,
                prefix,
                "run"@,
                path,
                build,
                read_opt_text,
                before,
                after,
                Ok(script),
            ) && match script {
                Some(s) => exists|list: Vec<String>| #[trigger]
                    known_list(out.command, list@) && views(list@) == script_command(shell, s@),
                None => out.command == hc.command,
            }
    } else {
        &&& out.run == hc.run
        &&& exists|list: Vec<String>| #[trigger]
            texts_step(hc.command, prefix, "command"@, path, build, before, after, Ok(list))
                && known_list(out.command, list@)
    }
}

/// Whether a health check may be computed as `out`: its command, its user and its groups.
#[verifier::opaque]
pub open spec fn check_step(
    hc: HealthCheck,
    prefix: Seq<char>,
    path: Seq<char>,
    build: Act,
    shell: Seq<char>,
    l0: Log,
    l1: Log,
    l2: Log,
    l3: Log,
    out: HealthCheck,
) -> bool {
    &&& check_command_step(hc, prefix, path, build, shell, l0, l1, out)
    &&& out.user matches ConfigValue::Static(user) && value_step(
        hc.user,
        prefix,
        "user"@,
        path,
        build,
        read_opt_text,
        l1,
        l2,
        Ok(user),
    )
    &&& exists|list: Vec<String>| #[trigger]
        texts_step(hc.groups, prefix, "groups"@, path, build, l2, l3, Ok(list))
            && known_list(out.groups, list@)
    &&& out.interval == hc.interval
    &&& out.timeout == hc.timeout
    &&& out.retries == hc.retries
    &&& out.start_period == hc.start_period
    &&& out.user_identity == hc.user_identity
}

/// Whether computing the command of a health check may fail with `e`.
pub open spec fn check_command_fails(
    hc: HealthCheck,
    prefix: Seq<char>,
    path: Seq<char>,
    build: Act,
    before: Log,
    after: Log,
    e: DaemonError,
) -> bool {
    if option_given(hc.run) {
        value_step(hc.run, prefix, "run"@, path, build, read_opt_text, before, after, Err(e))
    } else {
        texts_step(hc.command, prefix, "command"@, path, build, before, after, Err(e))
    }
}

/// Whether computing the command of a health check may take the record from `before` to `after`
/// without a fault.
pub open spec fn check_command_passes(
    hc: HealthCheck,
    prefix: Seq<char>,
    path: Seq<char>,
    build: Act,
    before: Log,
    after: Log,
) -> bool {
    if option_given(hc.run) {
        value_passes(hc.run, prefix, "run"@, path, build, read_opt_text, before, after)
    } else {
        texts_pass(hc.command, prefix, "command"@, path, build, before, after)
    }
}

/// Whether computing a health check may fail with `e`: the first of its command, its user and
/// its groups that fails does so with this error, after those before it passed.
#[verifier::opaque]
pub open spec fn check_fails(
    hc: HealthCheck,
    prefix: Seq<char>,
    path: Seq<char>,
    build: Act,
    l0: Log,
    l1: Log,
    l2: Log,
    after: Log,
    e: DaemonError,
) -> bool {
    ||| check_command_fails(hc, prefix, path, build, l0, after, e)
    ||| check_command_passes(hc, prefix, path, build, l0, l1) && {
        ||| value_step(hc.user, prefix, "user"@, path, build, read_opt_text, l1, after, Err(e))
        ||| value_passes(hc.user, prefix, "user"@, path, build, read_opt_text, l1, l2)
            && texts_step(hc.groups, prefix, "groups"@, path, build, l2, after, Err(e))
    }
}

/// The health check with its command, user and groups computed. Scripts must see the context
/// already.
pub fn resolve_health_check<S: Scripts>(
    hc: HealthCheck,
    scripts: &mut S,
    ctx: &EvalContext,
    config_path: &str,
    prefix: &str,
    shell: String,
) -> (r: Result<HealthCheck, DaemonError>)
    ensures
        match r {
            Ok(out) => exists|one: Log, two: Log| #[trigger]
                check_step(
                    hc,
                    prefix@,
                    config_path@,
                    build_act(*ctx, false),
                    shell@,
                    old(scripts).log(),
                    one,
                    two,
                    final(scripts).log(),
                    out,
                ),
            Err(e) => exists|one: Log, two: Log| #[trigger]
                check_fails(
                    hc,
                    prefix@,
                    config_path@,
                    build_act(*ctx, false),
                    old(scripts).log(),
                    one,
                    two,
                    final(scripts).log(),
                    e,
                ),
        },
{
    reveal(check_step);
    reveal(check_fails);
    let ghost path = config_path@;
    let ghost build = build_act(*ctx, false);
    let ghost l0 = scripts.log();
    let ghost given = hc;
    let HealthCheck {
        command,
        run,
        interval,
        timeout,
        retries,
        start_period,
        user,
        groups,
        user_identity,
    } = hc;
    let ghost mut list_ok: Vec<String> = arbitrary();
    let (new_command, new_run) = if is_option_given(&run) {
        match resolve_value(&run, scripts, ctx, config_path, prefix, "run", &read_opt_text) {
            Ok(Some(s)) => {
                let list = command_for(shell, s);
                proof {
                    list_ok = list;
                }
                (ConfigValue::Static(ConfigValue::wrap_vec(list)), ConfigValue::Static(None))
            },
            Ok(None) => (command, ConfigValue::Static(None)),
            Err(e) => {
                assert(check_fails(given, prefix@, path, build, l0, l0, l0, scripts.log(), e));
                return Err(e);
            },
        }
    } else {
        match resolve_texts(&command, scripts, ctx, config_path, prefix, "command") {
            Ok(list) => {
                proof {
                    list_ok = list;
                }
                (ConfigValue::Static(ConfigValue::wrap_vec(list)), run)
            },
            Err(e) => {
                assert(check_fails(given, prefix@, path, build, l0, l0, l0, scripts.log(), e));
                return Err(e);
            },
        }
    };
    let ghost l1 = scripts.log();
    assert(check_command_passes(given, prefix@, path, build, l0, l1));
    let new_user = match resolve_value(
        &user,
        scripts,
        ctx,
        config_path,
        prefix,
        "user",
        &read_opt_text,
    ) {
        Ok(u) => u,
        Err(e) => {
            assert(check_fails(given, prefix@, path, build, l0, l1, l1, scripts.log(), e));
            return Err(e);
        },
    };
    let ghost l2 = scripts.log();
    assert(value_passes(given.user, prefix@, "user"@, path, build, read_opt_text, l1, l2));
    let new_groups = match resolve_texts(&groups, scripts, ctx, config_path, prefix, "groups") {
        Ok(g) => g,
        Err(e) => {
            assert(check_fails(given, prefix@, path, build, l0, l1, l2, scripts.log(), e));
            return Err(e);
        },
    };
    let ghost group_list = new_groups;
    let out = HealthCheck {
        command: new_command,
        run: new_run,
        interval,
        timeout,
        retries,
        start_period,
        user: ConfigValue::Static(new_user),
        groups: ConfigValue::Static(ConfigValue::wrap_vec(new_groups)),
        user_identity,
    };
    proof {
        assert(known_list(out.groups, group_list@));
        assert(texts_step(
            given.groups,
            prefix@,
            "groups"@,
            path,
            build,
            l2,
            scripts.log(),
            Ok(group_list),
        ));
        assert(value_step(
            given.user,
            prefix@,
            "user"@,
            path,
            build,
            read_opt_text,
            l1,
            l2,
            Ok(out.user->Static_0),
        ));
        if !option_given(given.run) {
            assert(known_list(out.command, list_ok@));
        }
        assert(check_command_step(given, prefix@, path, build, shell@, l0, l1, out)) by {
            if option_given(given.run) {
                let script = choose|script: Option<String>|
                    value_step(
                        given.run,
                        prefix@,
                        "run"@,
                        path,
                        build,
                        read_opt_text,
                        l0,
                        l1,
                        Ok(script),
                    ) && match script {
                        Some(s) => known_list(out.command, list_ok@) && views(list_ok@)
                            == script_command(shell@, s@),
                        None => out.command == given.command,
                    };
                assert(value_step(
                    given.run,
                    prefix@,
                    "run"@,
                    path,
                    build,
                    read_opt_text,
                    l0,
                    l1,
                    Ok(script),
                ));
            }
        }
        assert(check_step(
            given,
            prefix@,
            path,
            build,
            shell@,
            l0,
            l1,
            l2,
            scripts.log(),
            out,
        ));
    }
    Ok(out)
}

/// Whether a restart setting may be computed as `out`: the setting, and then the patterns of
/// watched files.
pub open spec fn restart_step<R: Fn(&Yaml) -> Result<RestartConfig, String>>(
    c: ConfigValue<RestartConfig>,
    prefix: Seq<char>,
    path: Seq<char>,
    build: Act,
    decode: R,
    l0: Log,
    l1: Log,
    l2: Log,
    out: RestartConfig,
) -> bool {
    exists|given: RestartConfig| #[trigger]
        value_step(c, prefix, "restart"@, path, build, decode, l0, l1, Ok(given)) && watch_step(
            given,
            prefix,
            path,
            build,
            l1,
            l2,
            out,
        )
}

/// Whether the patterns of watched files may be computed as those of `out`.
pub open spec fn watch_step(
    given: RestartConfig,
    prefix: Seq<char>,
    path: Seq<char>,
    build: Act,
    before: Log,
    after: Log,
    out: RestartConfig,
) -> bool {
    match given {
        RestartConfig::Simple(_) => out == given && after == before,
        RestartConfig::Extended { policy, watch } => {
            &&& out matches RestartConfig::Extended { policy: p, watch: w }
            &&& p == policy
            &&& exists|list: Vec<String>| #[trigger]
                texts_step(watch, prefix, "restart.watch"@, path, build, before, after, Ok(list))
                    && known_list(w, list@)
        },
    }
}

/// Whether computing a restart setting may fail with `e`: the setting, or after it the patterns
/// of watched files.
pub open spec fn restart_fails<R: Fn(&Yaml) -> Result<RestartConfig, String>>(
    c: ConfigValue<RestartConfig>,
    prefix: Seq<char>,
    path: Seq<char>,
    build: Act,
    decode: R,
    start: Log,
    before: Log,
    after: Log,
    e: DaemonError,
) -> bool {
    ||| value_step(c, prefix, "restart"@, path, build, decode, start, after, Err(e))
    ||| exists|given: RestartConfig| #[trigger]
        value_step(c, prefix, "restart"@, path, build, decode, start, before, Ok(given)) && (
        given matches RestartConfig::Extended { watch, .. } && texts_step(
            watch,
            prefix,
            "restart.watch"@,
            path,
            build,
            before,
            after,
            Err(e),
        ))
}

/// The restart setting with its patterns computed. Scripts must see the context already.
pub fn resolve_restart<S: Scripts, R: Fn(&Yaml) -> Result<RestartConfig, String>>(
    c: &ConfigValue<RestartConfig>,
    scripts: &mut S,
    ctx: &EvalContext,
    config_path: &str,
    prefix: &str,
    decode: &R,
) -> (r: Result<RestartConfig, DaemonError>)
    requires
        forall|y: Yaml| #[trigger] call_requires(*decode, (&y,)),
    ensures
        match r {
            Ok(out) => exists|one: Log| #[trigger]
                restart_step(
                    *c,
                    prefix@,
                    config_path@,
                    build_act(*ctx, false),
                    *decode,
                    old(scripts).log(),
                    one,
                    final(scripts).log(),
                    out,
                ),
            Err(e) => exists|before: Log| #[trigger]
                restart_fails(
                    *c,
                    prefix@,
                    config_path@,
                    build_act(*ctx, false),
                    *decode,
                    old(scripts).log(),
                    before,
                    final(scripts).log(),
                    e,
                ),
        },
{
    let ghost path = config_path@;
    let ghost build = build_act(*ctx, false);
    let ghost l0 = scripts.log();
    let given = match resolve_value(c, scripts, ctx, config_path, prefix, "restart", decode) {
        Ok(v) => v,
        Err(e) => {
            assert(restart_fails(*c, prefix@, path, build, *decode, l0, l0, scripts.log(), e));
            return Err(e);
        },
    };
    let ghost l1 = scripts.log();
    let ghost found = given;
    assert(value_step(*c, prefix@, "restart"@, path, build, *decode, l0, l1, Ok(found)));
    match given {
        RestartConfig::Simple(p) => {
            let out = RestartConfig::Simple(p);
            assert(restart_step(*c, prefix@, path, build, *decode, l0, l1, scripts.log(), out));
            Ok(out)
        },
        RestartConfig::Extended { policy, watch } => {
            match resolve_texts(&watch, scripts, ctx, config_path, prefix, "restart.watch") {
                Ok(list) => {
                    let ghost patterns = list;
                    let out = RestartConfig::Extended {
                        policy,
                        watch: ConfigValue::Static(ConfigValue::wrap_vec(list)),
                    };
                    proof {
                        assert(texts_step(
                            watch,
                            prefix@,
                            "restart.watch"@,
                            path,
                            build,
                            l1,
                            scripts.log(),
                            Ok(patterns),
                        ));
                        assert(restart_step(
                            *c,
                            prefix@,
                            path,
                            build,
                            *decode,
                            l0,
                            l1,
                            scripts.log(),
                            out,
                        ));
                    }
                    Ok(out)
                },
                Err(e) => {
                    assert(restart_fails(
                        *c,
                        prefix@,
                        path,
                        build,
                        *decode,
                        l0,
                        l1,
                        scripts.log(),
                        e,
                    ));
                    Err(e)
                },
            }
        },
    }
}

/// Whether a log setting may be computed as `out`: the setting, and then its sizes.
pub open spec fn logs_step<G: Fn(&Yaml) -> Result<Option<LogConfig>, String>>(
    c: ConfigValue<Option<LogConfig>>,
    prefix: Seq<char>,
    path: Seq<char>,
    build: Act,
    decode: G,
    l0: Log,
    l1: Log,
    l2: Log,
    l3: Log,
    out: Option<LogConfig>,
) -> bool {
    exists|given: Option<LogConfig>| #[trigger]
        value_step(c, prefix, "logs"@, path, build, decode, l0, l1, Ok(given)) && match (
            given,
            out,
        ) {
            (None, None) => l2 == l1 && l3 == l1,
            (Some(g), Some(o)) => {
                &&& o.max_size matches ConfigValue::Static(m) && value_step(
                    g.max_size,
                    prefix,
                    "logs.max_size"@,
                    path,
                    build,
                    read_opt_text,
                    l1,
                    l2,
                    Ok(m),
                )
                &&& o.buffer_size matches ConfigValue::Static(n) && value_step(
                    g.buffer_size,
                    prefix,
                    "logs.buffer_size"@,
                    path,
                    build,
                    read_opt_size,
                    l2,
                    l3,
                    Ok(n),
                )
                &&& o.store == g.store
                &&& o.retention == g.retention
                &&& o.flush_interval == g.flush_interval
                &&& o.retention_period == g.retention_period
                &&& o.batch_size == g.batch_size
            },
            _ => false,
        }
}

/// Whether computing a log setting may fail with `e`: the setting, or after it the first of its
/// sizes that fails.
pub open spec fn logs_fail<G: Fn(&Yaml) -> Result<Option<LogConfig>, String>>(
    c: ConfigValue<Option<LogConfig>>,
    prefix: Seq<char>,
    path: Seq<char>,
    build: Act,
    decode: G,
    start: Log,
    middle: Log,
    before: Log,
    after: Log,
    e: DaemonError,
) -> bool {
    ||| value_step(c, prefix, "logs"@, path, build, decode, start, after, Err(e))
    ||| exists|given: LogConfig| #[trigger]
        value_step(c, prefix, "logs"@, path, build, decode, start, middle, Ok(Some(given))) && {
            ||| value_step(
                given.max_size,
                prefix,
                "logs.max_size"@,
                path,
                build,
                read_opt_text,
                middle,
                after,
                Err(e),
            )
            ||| value_passes(
                given.max_size,
                prefix,
                "logs.max_size"@,
                path,
                build,
                read_opt_text,
                middle,
                before,
            ) && value_step(
                given.buffer_size,
                prefix,
                "logs.buffer_size"@,
                path,
                build,
                read_opt_size,
                before,
                after,
                Err(e),
            )
        }
}

/// The log setting with its sizes computed. Scripts must see the context already.
pub fn resolve_logs<S: Scripts, G: Fn(&Yaml) -> Result<Option<LogConfig>, String>>(
    c: &ConfigValue<Option<LogConfig>>,
    scripts: &mut S,
    ctx: &EvalContext,
    config_path: &str,
    prefix: &str,
    decode: &G,
) -> (r: Result<Option<LogConfig>, DaemonError>)
    requires
        forall|y: Yaml| #[trigger] call_requires(*decode, (&y,)),
    ensures
        match r {
            Ok(out) => exists|one: Log, two: Log| #[trigger]
                logs_step(
                    *c,
                    prefix@,
                    config_path@,
                    build_act(*ctx, false),
                    *decode,
                    old(scripts).log(),
                    one,
                    two,
                    final(scripts).log(),
                    out,
                ),
            Err(e) => exists|middle: Log, before: Log| #[trigger]
                logs_fail(
                    *c,
                    prefix@,
                    config_path@,
                    build_act(*ctx, false),
                    *decode,
                    old(scripts).log(),
                    middle,
                    before,
                    final(scripts).log(),
                    e,
                ),
        },
{
    let ghost path = config_path@;
    let ghost build = build_act(*ctx, false);
    let ghost l0 = scripts.log();
    let given = match resolve_value(c, scripts, ctx, config_path, prefix, "logs", decode) {
        Ok(v) => v,
        Err(e) => {
            assert(logs_fail(*c, prefix@, path, build, *decode, l0, l0, l0, scripts.log(), e));
            return Err(e);
        },
    };
    let ghost l1 = scripts.log();
    let ghost found = given;
    assert(value_step(*c, prefix@, "logs"@, path, build, *decode, l0, l1, Ok(found)));
    match given {
        None => {
            let out: Option<LogConfig> = None;
            assert(logs_step(*c, prefix@, path, build, *decode, l0, l1, l1, scripts.log(), out));
            Ok(out)
        },
        Some(g) => {
            let max_size = match resolve_value(
                &g.max_size,
                scripts,
                ctx,
                config_path,
                prefix,
                "logs.max_size",
                &read_opt_text,
            ) {
                Ok(v) => v,
                Err(e) => {
                    assert(logs_fail(
                        *c,
                        prefix@,
                        path,
                        build,
                        *decode,
                        l0,
                        l1,
                        l1,
                        scripts.log(),
                        e,
                    ));
                    return Err(e);
                },
            };
            let ghost l2 = scripts.log();
            assert(value_passes(
                g.max_size,
                prefix@,
                "logs.max_size"@,
                path,
                build,
                read_opt_text,
                l1,
                l2,
            ));
            let buffer_size = match resolve_value(
                &g.buffer_size,
                scripts,
                ctx,
                config_path,
                prefix,
                "logs.buffer_size",
                &read_opt_size,
            ) {
                Ok(v) => v,
                Err(e) => {
                    assert(logs_fail(
                        *c,
                        prefix@,
                        path,
                        build,
                        *decode,
                        l0,
                        l1,
                        l2,
                        scripts.log(),
                        e,
                    ));
                    return Err(e);
                },
            };
            let out = Some(
                LogConfig {
                    store: g.store,
                    retention: g.retention,
                    flush_interval: g.flush_interval,
                    retention_period: g.retention_period,
                    batch_size: g.batch_size,
                    max_size: ConfigValue::Static(max_size),
                    buffer_size: ConfigValue::Static(buffer_size),
                },
            );
            assert(logs_step(*c, prefix@, path, build, *decode, l0, l1, l2, scripts.log(), out));
            Ok(out)
        },
    }
}

} // verus!
