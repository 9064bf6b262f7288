//! Starting a service: its whole configuration, computed in order.
use vstd::prelude::*;
use vstd::string::*;
use crate::config::config_value::ConfigValue;
use crate::config::evaluate::{build_act, build_fault, extends, prepare_env, reports};
use crate::config::health::HealthCheck;
use crate::config::hooks::{law_copied_hooks_are_the_same, same_service_hooks};
use crate::config::laws::law_copied_dependencies_ask_the_same;
use crate::config::logs::LogConfig;
use crate::config::read::{read_opt_flag, read_opt_text};
use crate::config::resolve::{field_step, Log};
use crate::config::resolve_env::{environment_step, resolve_environment};
use crate::config::resolve_service::{
    check_fails, check_step, command_passes, command_step, decoders_ready, field_path, logs_fail, logs_step,
    path_of_field, resolve_command, resolve_health_check, resolve_logs, resolve_restart,
    resolve_texts, resolve_value, restart_fails, restart_step, texts_pass, texts_step, value_passes,
    value_step, Decoders,
};
use crate::config::resources::ResourceLimits;
use crate::config::restart::RestartConfig;
use crate::config::service::{
    resolve_shell, shell_for, text_of, KeplerConfig, RawServiceConfig, ServiceConfig,
};
use crate::errors::DaemonError;
use crate::lua_eval::{
    definition_fails, fault_of, lemma_defined, start_fails, Act, EvalContext, LuaEvaluator, Order,
    Reply, Scripts, ServiceEvalContext,
};
use crate::text::{concat, concat3, opt_view, views};
use crate::value::Yaml;

verus! {

/// Whether a health check may be computed as `out`: the check, and then its parts.
pub open spec fn health_step<H: Fn(&Yaml) -> Result<Option<HealthCheck>, String>>(
    c: ConfigValue<Option<HealthCheck>>,
    name: Seq<char>,
    path: Seq<char>,
    build: Act,
    shell: Seq<char>,
    decode: H,
    l0: Log,
    l1: Log,
    l2: Log,
    l3: Log,
    l4: Log,
    out: Option<HealthCheck>,
) -> bool {
    exists|given: Option<HealthCheck>| #[trigger]
        value_step(c, name, "healthcheck"@, path, build, decode, l0, l1, Ok(given)) && match (
            given,
            out,
        ) {
            (None, None) => l4 == l1,
            (Some(hc), Some(o)) => check_step(
                hc,
                field_path(name, "healthcheck"@),
                path,
                build,
                shell,
                l1,
                l2,
                l3,
                l4,
                o,
            ),
            _ => false,
        }
}

/// Whether computing a health check may fail with `e`: the check, or after it its parts.
pub open spec fn health_fails<H: Fn(&Yaml) -> Result<Option<HealthCheck>, String>>(
    c: ConfigValue<Option<HealthCheck>>,
    name: Seq<char>,
    path: Seq<char>,
    build: Act,
    decode: H,
    l0: Log,
    l1: Log,
    l2: Log,
    l3: Log,
    after: Log,
    e: DaemonError,
) -> bool {
    ||| value_step(c, name, "healthcheck"@, path, build, decode, l0, after, Err(e))
    ||| exists|hc: HealthCheck| #[trigger]
        value_step(c, name, "healthcheck"@, path, build, decode, l0, l1, Ok(Some(hc)))
            && check_fails(hc, field_path(name, "healthcheck"@), path, build, l1, l2, l3, after, e)
}

/// The health check with its parts computed. Scripts must see the context already.
pub fn resolve_health<S: Scripts, H: Fn(&Yaml) -> Result<Option<HealthCheck>, String>>(
    c: &ConfigValue<Option<HealthCheck>>,
    scripts: &mut S,
    ctx: &EvalContext,
    config_path: &str,
    name: &str,
    shell: String,
    decode: &H,
) -> (r: Result<Option<HealthCheck>, DaemonError>)
    requires
        forall|y: Yaml| #[trigger] call_requires(*decode, (&y,)),
    ensures
        match r {
            Ok(out) => exists|l1: Log, l2: Log, l3: Log| #[trigger]
                health_step(
                    *c,
                    name@,
                    config_path@,
                    build_act(*ctx, false),
                    shell@,
                    *decode,
                    old(scripts).log(),
                    l1,
                    l2,
                    l3,
                    final(scripts).log(),
                    out,
                ),
            Err(e) => exists|l1: Log, l2: Log, l3: Log| #[trigger]
                health_fails(
                    *c,
                    name@,
                    config_path@,
                    build_act(*ctx, false),
                    *decode,
                    old(scripts).log(),
                    l1,
                    l2,
                    l3,
                    final(scripts).log(),
                    e,
                ),
        },
{
    let ghost path = config_path@;
    let ghost build = build_act(*ctx, false);
    let ghost l0 = scripts.log();
    let given = match resolve_value(c, scripts, ctx, config_path, name, "healthcheck", decode) {
        Ok(v) => v,
        Err(e) => {
            assert(health_fails(
                *c,
                name@,
                path,
                build,
                *decode,
                l0,
                l0,
                l0,
                l0,
                scripts.log(),
                e,
            ));
            return Err(e);
        },
    };
    let ghost l1 = scripts.log();
    let ghost found = given;
    assert(value_step(*c, name@, "healthcheck"@, path, build, *decode, l0, l1, Ok(found)));
    match given {
        None => {
            let out: Option<HealthCheck> = None;
            assert(health_step(
                *c,
                name@,
                path,
                build,
                shell@,
                *decode,
                l0,
                l1,
                l1,
                l1,
                scripts.log(),
                out,
            ));
            Ok(out)
        },
        Some(hc) => {
            let prefix = path_of_field(name, "healthcheck");
            let ghost shell_text = shell@;
            match resolve_health_check(hc, scripts, ctx, config_path, prefix.as_str(), shell) {
                Ok(o) => {
                    proof {
                        let (l2, l3) = choose|l2: Log, l3: Log| #[trigger]
                            check_step(
                                hc,
                                prefix@,
                                path,
                                build,
                                shell_text,
                                l1,
                                l2,
                                l3,
                                scripts.log(),
                                o,
                            );
                        assert(health_step(
                            *c,
                            name@,
                            path,
                            build,
                            shell_text,
                            *decode,
                            l0,
                            l1,
                            l2,
                            l3,
                            scripts.log(),
                            Some(o),
                        ));
                    }
                    Ok(Some(o))
                },
                Err(e) => {
                    proof {
                        let (l2, l3) = choose|l2: Log, l3: Log| #[trigger]
                            check_fails(hc, prefix@, path, build, l1, l2, l3, scripts.log(), e);
                        assert(health_fails(
                            *c,
                            name@,
                            path,
                            build,
                            *decode,
                            l0,
                            l1,
                            l2,
                            l3,
                            scripts.log(),
                            e,
                        ));
                    }
                    Err(e)
                },
            }
        },
    }
}

/// The user of a process: the computed one, else the default.
pub open spec fn chosen_user(user: Option<String>, default_user: Option<Seq<char>>) -> Option<
    Seq<char>,
> {
    match user {
        Some(u) => Some(u@),
        None => default_user,
    }
}

/// The records between the fields of a service, in the order in which the fields are computed.
pub struct Marks {
    pub command: Log,
    pub working_dir: Log,
    pub condition: Log,
    pub user: Log,
    pub groups: Log,
    pub health: (Log, Log, Log),
    pub healthcheck: Log,
    pub limits: Log,
    pub watch: Log,
    pub restart: Log,
    pub sizes: (Log, Log),
    pub logs: Log,
}

/// Whether the fields of a service may be computed as those of `out`, one after the other.
pub open spec fn fields_step<
    H: Fn(&Yaml) -> Result<Option<HealthCheck>, String>,
    L: Fn(&Yaml) -> Result<Option<ResourceLimits>, String>,
    R: Fn(&Yaml) -> Result<RestartConfig, String>,
    G: Fn(&Yaml) -> Result<Option<LogConfig>, String>,
>(
    raw: RawServiceConfig,
    name: Seq<char>,
    path: Seq<char>,
    build: Act,
    shell: Seq<char>,
    default_user: Option<Seq<char>>,
    d: Decoders<H, L, R, G>,
    start: Log,
    m: Marks,
    end: Log,
    out: ServiceConfig,
) -> bool {
    &&& command_step(
        raw.run,
        raw.command,
        name,
        path,
        build,
        shell,
        start,
        m.command,
        Ok(out.command),
    )
    &&& value_step(
        raw.working_dir,
        name,
        "working_dir"@,
        path,
        build,
        read_opt_text,
        m.command,
        m.working_dir,
        Ok(out.working_dir),
    )
    &&& value_step(
        raw.condition,
        name,
        "if"@,
        path,
        build,
        read_opt_flag,
        m.working_dir,
        m.condition,
        Ok(out.condition),
    )
    &&& exists|user: Option<String>| #[trigger]
        value_step(
            raw.user,
            name,
            "user"@,
            path,
            build,
            read_opt_text,
            m.condition,
            m.user,
            Ok(user),
        ) && opt_view(out.user) == chosen_user(user, default_user)
    &&& texts_step(
        raw.groups,
        name,
        "groups"@,
        path,
        build,
        m.user,
        m.groups,
        Ok(out.groups),
    )
    &&& health_step(
        raw.healthcheck,
        name,
        path,
        build,
        shell,
        d.health_check,
        m.groups,
        m.health.0,
        m.health.1,
        m.health.2,
        m.healthcheck,
        out.healthcheck,
    )
    &&& value_step(
        raw.limits,
        name,
        "limits"@,
        path,
        build,
        d.limits,
        m.healthcheck,
        m.limits,
        Ok(out.limits),
    )
    &&& restart_step(
        raw.restart,
        name,
        path,
        build,
        d.restart,
        m.limits,
        m.watch,
        m.restart,
        out.restart,
    )
    &&& logs_step(
        raw.logs,
        name,
        path,
        build,
        d.logs,
        m.restart,
        m.sizes.0,
        m.sizes.1,
        m.logs,
        out.logs,
    )
    &&& value_step(
        raw.output,
        name,
        "output"@,
        path,
        build,
        read_opt_flag,
        m.logs,
        end,
        Ok(out.output),
    )
}

/// Whether computing a health check may take the record from `l0` to `l4` without a fault.
pub open spec fn health_passes<H: Fn(&Yaml) -> Result<Option<HealthCheck>, String>>(
    c: ConfigValue<Option<HealthCheck>>,
    name: Seq<char>,
    path: Seq<char>,
    build: Act,
    shell: Seq<char>,
    decode: H,
    l0: Log,
    l1: Log,
    l2: Log,
    l3: Log,
    l4: Log,
) -> bool {
    exists|out: Option<HealthCheck>| #[trigger]
        health_step(c, name, path, build, shell, decode, l0, l1, l2, l3, l4, out)
}

/// Whether computing a restart setting may take the record from `l0` to `l2` without a fault.
pub open spec fn restart_passes<R: Fn(&Yaml) -> Result<RestartConfig, String>>(
    c: ConfigValue<RestartConfig>,
    name: Seq<char>,
    path: Seq<char>,
    build: Act,
    decode: R,
    l0: Log,
    l1: Log,
    l2: Log,
) -> bool {
    exists|out: RestartConfig| #[trigger]
        restart_step(c, name, path, build, decode, l0, l1, l2, out)
}

/// Whether computing a log setting may take the record from `l0` to `l3` without a fault.
pub open spec fn logs_pass<G: Fn(&Yaml) -> Result<Option<LogConfig>, String>>(
    c: ConfigValue<Option<LogConfig>>,
    name: Seq<char>,
    path: Seq<char>,
    build: Act,
    decode: G,
    l0: Log,
    l1: Log,
    l2: Log,
    l3: Log,
) -> bool {
    exists|out: Option<LogConfig>| #[trigger]
        logs_step(c, name, path, build, decode, l0, l1, l2, l3, out)
}

/// Whether the first `k` fields of a service may be computed without a fault, one after the
/// other.
pub open spec fn fields_pass<
    H: Fn(&Yaml) -> Result<Option<HealthCheck>, String>,
    L: Fn(&Yaml) -> Result<Option<ResourceLimits>, String>,
    R: Fn(&Yaml) -> Result<RestartConfig, String>,
    G: Fn(&Yaml) -> Result<Option<LogConfig>, String>,
>(
    raw: RawServiceConfig,
    name: Seq<char>,
    path: Seq<char>,
    build: Act,
    shell: Seq<char>,
    d: Decoders<H, L, R, G>,
    start: Log,
    m: Marks,
    k: int,
) -> bool {
    &&& k >= 1 ==> command_passes(raw.run, raw.command, name, path, build, shell, start, m.command)
    &&& k >= 2 ==> value_passes(
        raw.working_dir,
        name,
        "working_dir"@,
        path,
        build,
        read_opt_text,
        m.command,
        m.working_dir,
    )
    &&& k >= 3 ==> value_passes(
        raw.condition,
        name,
        "if"@,
        path,
        build,
        read_opt_flag,
        m.working_dir,
        m.condition,
    )
    &&& k >= 4 ==> value_passes(
        raw.user,
        name,
        "user"@,
        path,
        build,
        read_opt_text,
        m.condition,
        m.user,
    )
    &&& k >= 5 ==> texts_pass(raw.groups, name, "groups"@, path, build, m.user, m.groups)
    &&& k >= 6 ==> health_passes(
        raw.healthcheck,
        name,
        path,
        build,
        shell,
        d.health_check,
        m.groups,
        m.health.0,
        m.health.1,
        m.health.2,
        m.healthcheck,
    )
    &&& k >= 7 ==> value_passes(
        raw.limits,
        name,
        "limits"@,
        path,
        build,
        d.limits,
        m.healthcheck,
        m.limits,
    )
    &&& k >= 8 ==> restart_passes(
        raw.restart,
        name,
        path,
        build,
        d.restart,
        m.limits,
        m.watch,
        m.restart,
    )
    &&& k >= 9 ==> logs_pass(
        raw.logs,
        name,
        path,
        build,
        d.logs,
        m.restart,
        m.sizes.0,
        m.sizes.1,
        m.logs,
    )
}

/// Whether computing a field of a service may fail with `e`, after those before it passed.
pub open spec fn fields_fail<
    H: Fn(&Yaml) -> Result<Option<HealthCheck>, String>,
    L: Fn(&Yaml) -> Result<Option<ResourceLimits>, String>,
    R: Fn(&Yaml) -> Result<RestartConfig, String>,
    G: Fn(&Yaml) -> Result<Option<LogConfig>, String>,
>(
    raw: RawServiceConfig,
    name: Seq<char>,
    path: Seq<char>,
    build: Act,
    shell: Seq<char>,
    d: Decoders<H, L, R, G>,
    start: Log,
    m: Marks,
    after: Log,
    e: DaemonError,
) -> bool {
    ||| command_step(raw.run, raw.command, name, path, build, shell, start, after, Err(e))
    ||| fields_pass(raw, name, path, build, shell, d, start, m, 1) && value_step(
        raw.working_dir,
        name,
        "working_dir"@,
        path,
        build,
        read_opt_text,
        m.command,
        after,
        Err(e),
    )
    ||| fields_pass(raw, name, path, build, shell, d, start, m, 2) && value_step(
        raw.condition,
        name,
        "if"@,
        path,
        build,
        read_opt_flag,
        m.working_dir,
        after,
        Err(e),
    )
    ||| fields_pass(raw, name, path, build, shell, d, start, m, 3) && value_step(
        raw.user,
        name,
        "user"@,
        path,
        build,
        read_opt_text,
        m.condition,
        after,
        Err(e),
    )
    ||| fields_pass(raw, name, path, build, shell, d, start, m, 4) && texts_step(
        raw.groups,
        name,
        "groups"@,
        path,
        build,
        m.user,
        after,
        Err(e),
    )
    ||| fields_pass(raw, name, path, build, shell, d, start, m, 5) && health_fails(
        raw.healthcheck,
        name,
        path,
        build,
        d.health_check,
        m.groups,
        m.health.0,
        m.health.1,
        m.health.2,
        after,
        e,
    )
    ||| fields_pass(raw, name, path, build, shell, d, start, m, 6) && value_step(
        raw.limits,
        name,
        "limits"@,
        path,
        build,
        d.limits,
        m.healthcheck,
        after,
        Err(e),
    )
    ||| fields_pass(raw, name, path, build, shell, d, start, m, 7) && restart_fails(
        raw.restart,
        name,
        path,
        build,
        d.restart,
        m.limits,
        m.watch,
        after,
        e,
    )
    ||| fields_pass(raw, name, path, build, shell, d, start, m, 8) && logs_fail(
        raw.logs,
        name,
        path,
        build,
        d.logs,
        m.restart,
        m.sizes.0,
        m.sizes.1,
        after,
        e,
    )
    ||| fields_pass(raw, name, path, build, shell, d, start, m, 9) && value_step(
        raw.output,
        name,
        "output"@,
        path,
        build,
        read_opt_flag,
        m.logs,
        after,
        Err(e),
    )
}

/// What of a service needs no computing.
pub open spec fn kept_fields(
    raw: RawServiceConfig,
    environment: Seq<Seq<char>>,
    env_file: Option<Seq<char>>,
    out: ServiceConfig,
) -> bool {
    &&& views(out.environment@) == environment
    &&& opt_view(out.env_file) == env_file
    &&& out.inherit_env == raw.inherit_env
    &&& cloned(raw.depends_on, out.depends_on)
    &&& cloned(raw.hooks, out.hooks)
    &&& out.outputs is None
    &&& out.inject_user_env == raw.inject_user_env
}

/// Computes the fields of a service that come after its environment. Scripts must see the context
/// already.
fn resolve_fields<
    S: Scripts,
    H: Fn(&Yaml) -> Result<Option<HealthCheck>, String>,
    L: Fn(&Yaml) -> Result<Option<ResourceLimits>, String>,
    R: Fn(&Yaml) -> Result<RestartConfig, String>,
    G: Fn(&Yaml) -> Result<Option<LogConfig>, String>,
>(
    raw: &RawServiceConfig,
    scripts: &mut S,
    ctx: &EvalContext,
    config_path: &str,
    name: &str,
    shell: &String,
    default_user: Option<&str>,
    environment: Vec<String>,
    env_file: Option<String>,
    d: &Decoders<H, L, R, G>,
) -> (r: Result<ServiceConfig, DaemonError>)
    requires
        decoders_ready(*d),
    ensures
        match r {
            Ok(out) => kept_fields(*raw, views(environment@), opt_view(env_file), out)
                && exists|m: Marks| #[trigger]
                fields_step(
                    *raw,
                    name@,
                    config_path@,
                    build_act(*ctx, false),
                    shell@,
                    opt_str_view(default_user),
                    *d,
                    old(scripts).log(),
                    m,
                    final(scripts).log(),
                    out,
                ),
            Err(e) => exists|m: Marks| #[trigger]
                fields_fail(
                    *raw,
                    name@,
                    config_path@,
                    build_act(*ctx, false),
                    shell@,
                    *d,
                    old(scripts).log(),
                    m,
                    final(scripts).log(),
                    e,
                ),
        },
{
    let ghost path = config_path@;
    let ghost build = build_act(*ctx, false);
    let ghost start = scripts.log();
    let ghost m0 = Marks {
        command: start,
        working_dir: start,
        condition: start,
        user: start,
        groups: start,
        health: (start, start, start),
        healthcheck: start,
        limits: start,
        watch: start,
        restart: start,
        sizes: (start, start),
        logs: start,
    };
    let command = match resolve_command(
        &raw.run,
        &raw.command,
        scripts,
        ctx,
        config_path,
        name,
        shell.clone(),
    ) {
        Ok(v) => v,
        Err(e) => {
            assert(fields_fail(
                *raw,
                name@,
                path,
                build,
                shell@,
                *d,
                start,
                m0,
                scripts.log(),
                e,
            ));
            return Err(e);
        },
    };
    let ghost l1 = scripts.log();
    let ghost m1 = Marks { command: l1, ..m0 };
    assert(fields_pass(*raw, name@, path, build, shell@, *d, start, m1, 1));
    let working_dir = match resolve_value(
        &raw.working_dir,
        scripts,
        ctx,
        config_path,
        name,
        "working_dir",
        &read_opt_text,
    ) {
        Ok(v) => v,
        Err(e) => {
            assert(fields_fail(
                *raw,
                name@,
                path,
                build,
                shell@,
                *d,
                start,
                m1,
                scripts.log(),
                e,
            ));
            return Err(e);
        },
    };
    let ghost l2 = scripts.log();
    let ghost m2 = Marks { working_dir: l2, ..m1 };
    assert(fields_pass(*raw, name@, path, build, shell@, *d, start, m2, 2));
    let condition = match resolve_value(
        &raw.condition,
        scripts,
        ctx,
        config_path,
        name,
        "if",
        &read_opt_flag,
    ) {
        Ok(v) => v,
        Err(e) => {
            assert(fields_fail(
                *raw,
                name@,
                path,
                build,
                shell@,
                *d,
                start,
                m2,
                scripts.log(),
                e,
            ));
            return Err(e);
        },
    };
    let ghost l3 = scripts.log();
    let ghost m3 = Marks { condition: l3, ..m2 };
    assert(fields_pass(*raw, name@, path, build, shell@, *d, start, m3, 3));
    let own_user = match resolve_value(
        &raw.user,
        scripts,
        ctx,
        config_path,
        name,
        "user",
        &read_opt_text,
    ) {
        Ok(v) => v,
        Err(e) => {
            assert(fields_fail(
                *raw,
                name@,
                path,
                build,
                shell@,
                *d,
                start,
                m3,
                scripts.log(),
                e,
            ));
            return Err(e);
        },
    };
    let ghost l4 = scripts.log();
    let ghost m4 = Marks { user: l4, ..m3 };
    assert(fields_pass(*raw, name@, path, build, shell@, *d, start, m4, 4));
    let groups = match resolve_texts(&raw.groups, scripts, ctx, config_path, name, "groups") {
        Ok(v) => v,
        Err(e) => {
            assert(fields_fail(
                *raw,
                name@,
                path,
                build,
                shell@,
                *d,
                start,
                m4,
                scripts.log(),
                e,
            ));
            return Err(e);
        },
    };
    let ghost l5 = scripts.log();
    let ghost m5 = Marks { groups: l5, ..m4 };
    assert(fields_pass(*raw, name@, path, build, shell@, *d, start, m5, 5));
    let healthcheck = match resolve_health(
        &raw.healthcheck,
        scripts,
        ctx,
        config_path,
        name,
        shell.clone(),
        &d.health_check,
    ) {
        Ok(v) => v,
        Err(e) => {
            proof {
                let (h1, h2, h3) = choose|h1: Log, h2: Log, h3: Log| #[trigger]
                    health_fails(
                        raw.healthcheck,
                        name@,
                        path,
                        build,
                        d.health_check,
                        l5,
                        h1,
                        h2,
                        h3,
                        scripts.log(),
                        e,
                    );
                let m = Marks { health: (h1, h2, h3), ..m5 };
                assert(fields_pass(*raw, name@, path, build, shell@, *d, start, m, 5));
                assert(fields_fail(
                    *raw,
                    name@,
                    path,
                    build,
                    shell@,
                    *d,
                    start,
                    m,
                    scripts.log(),
                    e,
                ));
            }
            return Err(e);
        },
    };
    let ghost l6 = scripts.log();
    let ghost health = {
        let (h1, h2, h3) = choose|h1: Log, h2: Log, h3: Log| #[trigger]
            health_step(
                raw.healthcheck,
                name@,
                path,
                build,
                shell@,
                d.health_check,
                l5,
                h1,
                h2,
                h3,
                l6,
                healthcheck,
            );
        (h1, h2, h3)
    };
    let ghost m6 = Marks { health, healthcheck: l6, ..m5 };
    assert(fields_pass(*raw, name@, path, build, shell@, *d, start, m6, 6));
    let limits = match resolve_value(
        &raw.limits,
        scripts,
        ctx,
        config_path,
        name,
        "limits",
        &d.limits,
    ) {
        Ok(v) => v,
        Err(e) => {
            assert(fields_fail(
                *raw,
                name@,
                path,
                build,
                shell@,
                *d,
                start,
                m6,
                scripts.log(),
                e,
            ));
            return Err(e);
        },
    };
    let ghost l7 = scripts.log();
    let ghost m7 = Marks { limits: l7, ..m6 };
    assert(fields_pass(*raw, name@, path, build, shell@, *d, start, m7, 7));
    let restart = match resolve_restart(
        &raw.restart,
        scripts,
        ctx,
        config_path,
        name,
        &d.restart,
    ) {
        Ok(v) => v,
        Err(e) => {
            proof {
                let before = choose|before: Log| #[trigger]
                    restart_fails(
                        raw.restart,
                        name@,
                        path,
                        build,
                        d.restart,
                        l7,
                        before,
                        scripts.log(),
                        e,
                    );
                let m = Marks { watch: before, ..m7 };
                assert(fields_pass(*raw, name@, path, build, shell@, *d, start, m, 7));
                assert(fields_fail(
                    *raw,
                    name@,
                    path,
                    build,
                    shell@,
                    *d,
                    start,
                    m,
                    scripts.log(),
                    e,
                ));
            }
            return Err(e);
        },
    };
    let ghost l8 = scripts.log();
    let ghost watch = choose|watch: Log| #[trigger]
        restart_step(raw.restart, name@, path, build, d.restart, l7, watch, l8, restart);
    let ghost m8 = Marks { watch, restart: l8, ..m7 };
    assert(fields_pass(*raw, name@, path, build, shell@, *d, start, m8, 8));
    let logs = match resolve_logs(&raw.logs, scripts, ctx, config_path, name, &d.logs) {
        Ok(v) => v,
        Err(e) => {
            proof {
                let (middle, before) = choose|middle: Log, before: Log| #[trigger]
                    logs_fail(
                        raw.logs,
                        name@,
                        path,
                        build,
                        d.logs,
                        l8,
                        middle,
                        before,
                        scripts.log(),
                        e,
                    );
                let m = Marks { sizes: (middle, before), ..m8 };
                assert(fields_pass(*raw, name@, path, build, shell@, *d, start, m, 8));
                assert(fields_fail(
                    *raw,
                    name@,
                    path,
                    build,
                    shell@,
                    *d,
                    start,
                    m,
                    scripts.log(),
                    e,
                ));
            }
            return Err(e);
        },
    };
    let ghost l9 = scripts.log();
    let ghost sizes = {
        let (s1, s2) = choose|s1: Log, s2: Log| #[trigger]
            logs_step(raw.logs, name@, path, build, d.logs, l8, s1, s2, l9, logs);
        (s1, s2)
    };
    let ghost m9 = Marks { sizes, logs: l9, ..m8 };
    assert(fields_pass(*raw, name@, path, build, shell@, *d, start, m9, 9));
    let output = match resolve_value(
        &raw.output,
        scripts,
        ctx,
        config_path,
        name,
        "output",
        &read_opt_flag,
    ) {
        Ok(v) => v,
        Err(e) => {
            assert(fields_fail(
                *raw,
                name@,
                path,
                build,
                shell@,
                *d,
                start,
                m9,
                scripts.log(),
                e,
            ));
            return Err(e);
        },
    };
    let ghost l10 = scripts.log();
    let ghost given_user = own_user;
    let user = match own_user {
        Some(u) => Some(u),
        None => match default_user {
            Some(u) => Some(u.to_owned()),
            None => None,
        },
    };
    let out = ServiceConfig {
        condition,
        command,
        working_dir,
        environment,
        env_file,
        inherit_env: raw.inherit_env,
        restart,
        depends_on: raw.depends_on.clone(),
        healthcheck,
        hooks: raw.hooks.clone(),
        logs,
        user,
        groups,
        limits,
        output,
        outputs: None,
        inject_user_env: raw.inject_user_env,
    };
    proof {
        let m = m9;
        assert(value_step(
            raw.user,
            name@,
            "user"@,
            path,
            build,
            read_opt_text,
            m.condition,
            m.user,
            Ok(given_user),
        ));
        assert(fields_step(
            *raw,
            name@,
            path,
            build,
            shell@,
            opt_str_view(default_user),
            *d,
            start,
            m,
            scripts.log(),
            out,
        ));
    }
    Ok(out)
}

/// The text of an optional text.
pub open spec fn opt_str_view(s: Option<&str>) -> Option<Seq<char>> {
    match s {
        Some(t) => Some(t@),
        None => None,
    }
}

/// What the message on an environment of a service that is none starts with.
pub open spec fn service_label(name: Seq<char>) -> Seq<char> {
    "service '"@ + name + "'"@
}

/// A context in which the service has its name.
pub open spec fn named(ctx: EvalContext, name: Seq<char>, r: EvalContext) -> bool {
    match ctx.service {
        None => r == ctx,
        Some(s) => {
            &&& r.service is Some
            &&& r.service->0.name@ == name
            &&& r == EvalContext {
                service: Some(ServiceEvalContext { name: r.service->0.name, ..s }),
                ..ctx
            }
        },
    }
}

impl RawServiceConfig {
    /// The path of the environment file as it is written, computed in the context.
    pub fn resolve_env_file<S: Scripts>(
        &self,
        scripts: &mut S,
        ctx: &EvalContext,
        config_path: &str,
        name: &str,
    ) -> (r: Result<Option<String>, DaemonError>)
        ensures
            exists|built: bool| #[trigger]
                field_step(
                    self.env_file,
                    field_path(name@, "env_file"@),
                    config_path@,
                    build_act(*ctx, false),
                    read_opt_text,
                    old(scripts).log(),
                    final(scripts).log(),
                    false,
                    built,
                    r,
                ),
    {
        let place = path_of_field(name, "env_file");
        self.env_file.resolve(scripts, ctx, config_path, place.as_str(), &read_opt_text)
    }

    /// Computes the environment, entry by entry, and sets the variables of the context as they
    /// become known. Scripts must see the context, and the environment must be open.
    pub fn resolve_environment_with_env<S: Scripts>(
        &self,
        scripts: &mut S,
        ctx: &mut EvalContext,
        config_path: &str,
        name: &str,
    ) -> (r: Result<Vec<String>, DaemonError>)
        ensures
            environment_step(
                self.environment,
                field_path(name@, "environment"@),
                service_label(name@),
                config_path@,
                *old(ctx),
                *final(ctx),
                old(scripts).log(),
                final(scripts).log(),
                r,
            ),
    {
        let place = path_of_field(name, "environment");
        let label = concat3("service '", name, "'");
        resolve_environment(
            &self.environment,
            scripts,
            ctx,
            config_path,
            place.as_str(),
            label.as_str(),
        )
    }
}

/// Whether a service may be computed as `out`: scripts see the context, the environment is
/// computed, and then the other fields. `ctx` is the context at the start, `done` that at the end.
pub open spec fn service_step<
    H: Fn(&Yaml) -> Result<Option<HealthCheck>, String>,
    L: Fn(&Yaml) -> Result<Option<ResourceLimits>, String>,
    R: Fn(&Yaml) -> Result<RestartConfig, String>,
    G: Fn(&Yaml) -> Result<Option<LogConfig>, String>,
>(
    raw: RawServiceConfig,
    name: Seq<char>,
    path: Seq<char>,
    ctx: EvalContext,
    done: EvalContext,
    bash_exists: bool,
    default_user: Option<Seq<char>>,
    env_file: Option<Seq<char>>,
    d: Decoders<H, L, R, G>,
    start: Log,
    l1: Log,
    l2: Log,
    l3: Log,
    m: Marks,
    end: Log,
    out: ServiceConfig,
) -> bool {
    &&& extends(start, l1, seq![build_act(ctx, true)])
    &&& l1.last().1 is Value
    &&& exists|list: Vec<String>| #[trigger]
        environment_step(
            raw.environment,
            field_path(name, "environment"@),
            service_label(name),
            path,
            ctx,
            done,
            l1,
            l2,
            Ok(list),
        ) && kept_fields(raw, views(list@), env_file, out)
    &&& extends(l2, l3, seq![Act::Freeze])
    &&& fields_step(
        raw,
        name,
        path,
        build_act(done, false),
        shell_for(text_of(ctx.kepler_env, "SHELL"@), bash_exists),
        default_user,
        d,
        l3,
        m,
        end,
        out,
    )
}

/// Whether computing a service may fail with `e`: scripts cannot see the context, or after that
/// the environment fails, or after that a field. `ctx` is the context at the start, `done` that
/// at the end.
pub open spec fn service_fails<
    H: Fn(&Yaml) -> Result<Option<HealthCheck>, String>,
    L: Fn(&Yaml) -> Result<Option<ResourceLimits>, String>,
    R: Fn(&Yaml) -> Result<RestartConfig, String>,
    G: Fn(&Yaml) -> Result<Option<LogConfig>, String>,
>(
    raw: RawServiceConfig,
    name: Seq<char>,
    path: Seq<char>,
    ctx: EvalContext,
    done: EvalContext,
    bash_exists: bool,
    d: Decoders<H, L, R, G>,
    start: Log,
    l1: Log,
    l2: Log,
    l3: Log,
    m: Marks,
    end: Log,
    e: DaemonError,
) -> bool {
    ||| done == ctx && extends(start, end, seq![build_act(ctx, true)]) && (
    end.last().1 matches Reply::Fault(m) && reports(e, path, build_fault(m)))
    ||| extends(start, l1, seq![build_act(ctx, true)]) && l1.last().1 is Value && {
        ||| environment_step(
            raw.environment,
            field_path(name, "environment"@),
            service_label(name),
            path,
            ctx,
            done,
            l1,
            end,
            Err(e),
        )
        ||| (exists|list: Vec<String>| #[trigger]
            environment_step(
                raw.environment,
                field_path(name, "environment"@),
                service_label(name),
                path,
                ctx,
                done,
                l1,
                l2,
                Ok(list),
            )) && extends(l2, l3, seq![Act::Freeze]) && fields_fail(
            raw,
            name,
            path,
            build_act(done, false),
            shell_for(text_of(ctx.kepler_env, "SHELL"@), bash_exists),
            d,
            l3,
            m,
            end,
            e,
        )
    }
}

/// The code that a configuration gives for its definitions, with what its errors name as the
/// place.
pub open spec fn definitions(code: Option<Seq<char>>) -> Seq<(Seq<char>, Seq<char>)> {
    match code {
        Some(c) => seq![(c, "lua"@)],
        None => seq![],
    }
}

/// Whether an error says that there is no interpreter.
pub open spec fn fails_to_create(e: DaemonError, m: Seq<char>) -> bool {
    e matches DaemonError::Internal(text) && text@ == "Failed to create Lua evaluator: "@ + m
}

/// Whether an error says that the definitions of the configuration could not be run.
pub open spec fn fails_to_load(e: DaemonError, m: Seq<char>) -> bool {
    e matches DaemonError::Internal(text) && text@ == "Failed to load Lua code: "@ + m
}

impl KeplerConfig {
    /// Computes the configuration of a service in a context: first its environment, entry by
    /// entry, and then its other fields, which see the whole environment. `env_file` is the path
    /// of the environment file; its variables must be set in the context already. `bash_exists`
    /// says whether there is a bash.
    pub fn resolve_service<
        S: Scripts,
        H: Fn(&Yaml) -> Result<Option<HealthCheck>, String>,
        L: Fn(&Yaml) -> Result<Option<ResourceLimits>, String>,
        R: Fn(&Yaml) -> Result<RestartConfig, String>,
        G: Fn(&Yaml) -> Result<Option<LogConfig>, String>,
    >(
        &self,
        name: &str,
        ctx: &mut EvalContext,
        scripts: &mut S,
        config_path: &str,
        default_user: Option<&str>,
        env_file: Option<String>,
        bash_exists: bool,
        d: &Decoders<H, L, R, G>,
    ) -> (r: Result<ServiceConfig, DaemonError>)
        requires
            decoders_ready(*d),
        ensures
            !self.services@.contains_key(name@) ==> *final(ctx) == *old(ctx)
                && final(scripts).log() == old(scripts).log() && (r matches Err(
                DaemonError::ServiceNotFound(n),
            ) && n@ == name@),
            self.services@.contains_key(name@) ==> exists|begun: EvalContext| #[trigger]
                named(*old(ctx), name@, begun) && match r {
                    Ok(out) => exists|l1: Log, l2: Log, l3: Log, m: Marks| #[trigger]
                        service_step(
                            self.services@[name@],
                            name@,
                            config_path@,
                            begun,
                            *final(ctx),
                            bash_exists,
                            opt_str_view(default_user),
                            opt_view(env_file),
                            *d,
                            old(scripts).log(),
                            l1,
                            l2,
                            l3,
                            m,
                            final(scripts).log(),
                            out,
                        ),
                    Err(e) => exists|l1: Log, l2: Log, l3: Log, m: Marks| #[trigger]
                        service_fails(
                            self.services@[name@],
                            name@,
                            config_path@,
                            begun,
                            *final(ctx),
                            bash_exists,
                            *d,
                            old(scripts).log(),
                            l1,
                            l2,
                            l3,
                            m,
                            final(scripts).log(),
                            e,
                        ),
                },
            r matches Ok(out) ==> self.services@.contains_key(name@) && same_service_hooks(
                self.services@[name@].hooks,
                out.hooks,
            ) && out.depends_on.rules() == self.services@[name@].depends_on.rules(),
    {
        let raw = match self.services.get(name) {
            Some(raw) => raw,
            None => {
                return Err(DaemonError::ServiceNotFound(name.to_owned()));
            },
        };
        let ghost start = scripts.log();
        let ghost path = config_path@;
        let ghost asked = opt_view(env_file);
        if let Some(s) = &mut ctx.service {
            s.name = name.to_owned();
        }
        let ghost begun = *ctx;
        assert(named(*old(ctx), name@, begun));
        let shell = resolve_shell(&ctx.kepler_env, bash_exists);
        if let Err(e) = prepare_env(scripts, &*ctx, true, config_path) {
            assert(service_fails(
                *raw,
                name@,
                path,
                begun,
                *ctx,
                bash_exists,
                *d,
                start,
                start,
                start,
                start,
                arbitrary(),
                scripts.log(),
                e,
            ));
            return Err(e);
        }
        let ghost l1 = scripts.log();
        let environment = match raw.resolve_environment_with_env(scripts, ctx, config_path, name) {
            Ok(list) => list,
            Err(e) => {
                assert(service_fails(
                    *raw,
                    name@,
                    path,
                    begun,
                    *ctx,
                    bash_exists,
                    *d,
                    start,
                    l1,
                    l1,
                    l1,
                    arbitrary(),
                    scripts.log(),
                    e,
                ));
                return Err(e);
            },
        };
        let ghost l2 = scripts.log();
        let ghost list = environment;
        let _ = scripts.perform(Order::Freeze);
        let ghost l3 = scripts.log();
        assert(extends(l2, l3, seq![Act::Freeze]));
        let r = resolve_fields(
            raw,
            scripts,
            &*ctx,
            config_path,
            name,
            &shell,
            default_user,
            environment,
            env_file,
            d,
        );
        let ghost found = r;
        proof {
            let build = build_act(*ctx, false);
            match found {
                Ok(out) => {
                    law_copied_hooks_are_the_same(raw.hooks, out.hooks);
                    law_copied_dependencies_ask_the_same(raw.depends_on, out.depends_on);
                    let m = choose|m: Marks| #[trigger]
                        fields_step(
                            *raw,
                            name@,
                            path,
                            build,
                            shell@,
                            opt_str_view(default_user),
                            *d,
                            l3,
                            m,
                            scripts.log(),
                            out,
                        );
                    assert(environment_step(
                        raw.environment,
                        field_path(name@, "environment"@),
                        service_label(name@),
                        path,
                        begun,
                        *ctx,
                        l1,
                        l2,
                        Ok(list),
                    ));
                    assert(service_step(
                        *raw,
                        name@,
                        path,
                        begun,
                        *ctx,
                        bash_exists,
                        opt_str_view(default_user),
                        asked,
                        *d,
                        start,
                        l1,
                        l2,
                        l3,
                        m,
                        scripts.log(),
                        out,
                    ));
                },
                Err(e) => {
                    let m = choose|m: Marks| #[trigger]
                        fields_fail(*raw, name@, path, build, shell@, *d, l3, m, scripts.log(), e);
                    assert(environment_step(
                        raw.environment,
                        field_path(name@, "environment"@),
                        service_label(name@),
                        path,
                        begun,
                        *ctx,
                        l1,
                        l2,
                        Ok(list),
                    ));
                    assert(service_fails(
                        *raw,
                        name@,
                        path,
                        begun,
                        *ctx,
                        bash_exists,
                        *d,
                        start,
                        l1,
                        l2,
                        l3,
                        m,
                        scripts.log(),
                        e,
                    ));
                },
            }
        }
        r
    }

    /// An interpreter with the definitions of the configuration.
    pub fn create_lua_evaluator(&self) -> (r: Result<LuaEvaluator, DaemonError>)
        ensures
            match r {
                Ok(e) => e.ready_with(definitions(opt_view(self.lua))),
                Err(e) => {
                    ||| exists|m: Seq<char>| start_fails(m) && #[trigger] fails_to_create(e, m)
                    ||| self.lua matches Some(code) && exists|m: Seq<char>|
                        definition_fails(seq![], code@, "lua"@, m) && #[trigger] fails_to_load(e, m)
                },
            },
    {
        let mut evaluator = match LuaEvaluator::new() {
            Ok(e) => e,
            Err(m) => {
                let e = DaemonError::Internal(
                    concat("Failed to create Lua evaluator: ", m.as_str()),
                );
                assert(fails_to_create(e, m@));
                return Err(e);
            },
        };
        let ghost fresh = evaluator;
        if let Some(code) = &self.lua {
            let done = evaluator.load_inline(code.as_str());
            proof {
                lemma_defined(fresh, evaluator, seq![], code@, "lua"@, fault_of(done));
                assert(seq![].push((code@, "lua"@)) =~= definitions(Some(code@)));
            }
            if let Err(m) = done {
                let e = DaemonError::Internal(concat("Failed to load Lua code: ", m.as_str()));
                assert(fails_to_load(e, m@));
                return Err(e);
            }
        }
        Ok(evaluator)
    }
}

} // verus!
