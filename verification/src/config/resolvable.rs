//! Processes to start, for services and for hooks alike.
use vstd::prelude::*;
use vstd::string::*;
use crate::config::config_value::ConfigValue;
use crate::config::environment::EnvironmentEntries;
use crate::config::evaluate::{build_act, build_fault, extends, prepare_env, reports};
use crate::config::hooks::HookCommand;
use crate::config::read::read_opt_text;
use crate::config::resolve::{field_step, Log};
use crate::config::resolve_env::{environment_step, resolve_environment};
use crate::config::resolve_service::{
    command_passes, command_step, field_path, path_of_field, resolve_command, resolve_texts,
    resolve_value, texts_pass, texts_step, value_passes, value_step,
};
use crate::config::resources::ResourceLimits;
use crate::config::service::{resolve_shell, shell_for, text_of, RawServiceConfig};
use crate::errors::DaemonError;
use crate::lua_eval::{Act, EvalContext, Order, Reply, Scripts};
use crate::name_map::NameMap;
use crate::paths::{join, seen_from};
use crate::value::Yaml;

verus! {

/// A process to start, with fields that can be computed.
pub struct ResolvableCommand<'a> {
    pub run: ConfigValue<Option<String>>,
    pub command: ConfigValue<Vec<ConfigValue<String>>>,
    pub user: &'a ConfigValue<Option<String>>,
    pub groups: &'a ConfigValue<Vec<ConfigValue<String>>>,
    pub working_dir: &'a ConfigValue<Option<String>>,
    pub environment: &'a ConfigValue<EnvironmentEntries>,
    pub env_file: &'a ConfigValue<Option<String>>,
    pub limits: &'a ConfigValue<Option<ResourceLimits>>,
}

/// A process to start.
#[derive(Debug)]
pub struct CommandSpec {
    pub program_and_args: Vec<String>,
    pub working_dir: String,
    pub environment: NameMap<String>,
    pub user: Option<String>,
    pub groups: Vec<String>,
    pub limits: Option<ResourceLimits>,
    /// Whether the environment of the daemon is kept from the process.
    pub clear_env: bool,
}

/// A text that is there.
fn present(s: &String) -> (r: Option<String>)
    ensures
        r == Some(*s),
{
    Some(s.clone())
}

/// Whether the script of a process is the script of a hook.
pub open spec fn script_kept(run: ConfigValue<String>, r: ConfigValue<Option<String>>) -> bool {
    match (run, r) {
        (ConfigValue::Static(s), ConfigValue::Static(t)) => t == Some(s),
        (ConfigValue::Dynamic(a), ConfigValue::Dynamic(b)) => a@ == b@,
        _ => false,
    }
}

/// The directory of a process: the one given, seen from the directory of the configuration, which
/// is also the default.
pub open spec fn directory(config_dir: Seq<char>, given: Option<String>) -> Seq<char> {
    match given {
        Some(dir) => seen_from(config_dir, dir@),
        None => config_dir,
    }
}

/// The shell for the scripts of a service, or of what has no service.
pub open spec fn shell_of(ctx: EvalContext, bash_exists: bool) -> Seq<char> {
    shell_for(
        match ctx.service {
            Some(s) => text_of(s.raw_env, "SHELL"@),
            None => None,
        },
        bash_exists,
    )
}

/// Whether a process may be computed as `out`, field by field. `ctx` is the context at the start,
/// `done` that at the end; `l1` to `l7` are the records between the steps.
pub open spec fn process_step<L: Fn(&Yaml) -> Result<Option<ResourceLimits>, String>>(
    c: ResolvableCommand<'_>,
    prefix: Seq<char>,
    path: Seq<char>,
    config_dir: Seq<char>,
    ctx: EvalContext,
    done: EvalContext,
    bash_exists: bool,
    decode: L,
    start: Log,
    l1: Log,
    l2: Log,
    l3: Log,
    l4: Log,
    l5: Log,
    l6: Log,
    l7: Log,
    end: Log,
    out: CommandSpec,
) -> bool {
    let build = build_act(done, false);
    &&& extends(start, l1, seq![build_act(ctx, true)])
    &&& l1.last().1 is Value
    &&& exists|list: Vec<String>| #[trigger]
        environment_step(
            *c.environment,
            field_path(prefix, "environment"@),
            field_path(prefix, "environment"@),
            path,
            ctx,
            done,
            l1,
            l2,
            Ok(list),
        )
    &&& extends(l2, l3, seq![Act::Freeze])
    &&& command_step(
        c.run,
        c.command,
        prefix,
        path,
        build,
        shell_of(done, bash_exists),
        l3,
        l4,
        Ok(out.program_and_args),
    )
    &&& exists|dir: Option<String>| #[trigger]
        value_step(
            *c.working_dir,
            prefix,
            "working_dir"@,
            path,
            build,
            read_opt_text,
            l4,
            l5,
            Ok(dir),
        ) && out.working_dir@ == directory(config_dir, dir)
    &&& value_step(*c.user, prefix, "user"@, path, build, read_opt_text, l5, l6, Ok(out.user))
    &&& texts_step(*c.groups, prefix, "groups"@, path, build, l6, l7, Ok(out.groups))
    &&& value_step(*c.limits, prefix, "limits"@, path, build, decode, l7, end, Ok(out.limits))
    &&& cloned(done.active(), out.environment)
}

/// Whether the first `k` steps of computing a process may pass without a fault, one after the
/// other: scripts see the context, the environment is computed and frozen, and then come the
/// command, the directory, the user and the groups. `l` holds the record after each of them.
pub open spec fn process_passes(
    c: ResolvableCommand<'_>,
    prefix: Seq<char>,
    path: Seq<char>,
    ctx: EvalContext,
    done: EvalContext,
    bash_exists: bool,
    start: Log,
    l: Seq<Log>,
    k: int,
) -> bool {
    let build = build_act(done, false);
    &&& k >= 1 ==> extends(start, l[0], seq![build_act(ctx, true)]) && l[0].last().1 is Value
    &&& k >= 3 ==> environment_passes(c, prefix, path, ctx, done, l[0], l[1])
    &&& k >= 3 ==> extends(l[1], l[2], seq![Act::Freeze])
    &&& k >= 4 ==> command_passes(
        c.run,
        c.command,
        prefix,
        path,
        build,
        shell_of(done, bash_exists),
        l[2],
        l[3],
    )
    &&& k >= 5 ==> value_passes(
        *c.working_dir,
        prefix,
        "working_dir"@,
        path,
        build,
        read_opt_text,
        l[3],
        l[4],
    )
    &&& k >= 6 ==> value_passes(
        *c.user,
        prefix,
        "user"@,
        path,
        build,
        read_opt_text,
        l[4],
        l[5],
    )
    &&& k >= 7 ==> texts_pass(*c.groups, prefix, "groups"@, path, build, l[5], l[6])
}

/// Whether computing the environment of a process may take the record from `before` to `after`
/// without a fault.
pub open spec fn environment_passes(
    c: ResolvableCommand<'_>,
    prefix: Seq<char>,
    path: Seq<char>,
    ctx: EvalContext,
    done: EvalContext,
    before: Log,
    after: Log,
) -> bool {
    exists|list: Vec<String>| #[trigger]
        environment_step(
            *c.environment,
            field_path(prefix, "environment"@),
            field_path(prefix, "environment"@),
            path,
            ctx,
            done,
            before,
            after,
            Ok(list),
        )
}

/// Whether computing a process may fail with `e`: a step fails after those before it passed.
pub open spec fn process_fails<L: Fn(&Yaml) -> Result<Option<ResourceLimits>, String>>(
    c: ResolvableCommand<'_>,
    prefix: Seq<char>,
    path: Seq<char>,
    ctx: EvalContext,
    done: EvalContext,
    bash_exists: bool,
    decode: L,
    start: Log,
    l: Seq<Log>,
    end: Log,
    e: DaemonError,
) -> bool {
    let build = build_act(done, false);
    ||| done == ctx && extends(start, end, seq![build_act(ctx, true)]) && (
    end.last().1 matches Reply::Fault(m) && reports(e, path, build_fault(m)))
    ||| process_passes(c, prefix, path, ctx, done, bash_exists, start, l, 1) && environment_step(
        *c.environment,
        field_path(prefix, "environment"@),
        field_path(prefix, "environment"@),
        path,
        ctx,
        done,
        l[0],
        end,
        Err(e),
    )
    ||| process_passes(c, prefix, path, ctx, done, bash_exists, start, l, 3) && command_step(
        c.run,
        c.command,
        prefix,
        path,
        build,
        shell_of(done, bash_exists),
        l[2],
        end,
        Err(e),
    )
    ||| process_passes(c, prefix, path, ctx, done, bash_exists, start, l, 4) && value_step(
        *c.working_dir,
        prefix,
        "working_dir"@,
        path,
        build,
        read_opt_text,
        l[3],
        end,
        Err(e),
    )
    ||| process_passes(c, prefix, path, ctx, done, bash_exists, start, l, 5) && value_step(
        *c.user,
        prefix,
        "user"@,
        path,
        build,
        read_opt_text,
        l[4],
        end,
        Err(e),
    )
    ||| process_passes(c, prefix, path, ctx, done, bash_exists, start, l, 6) && texts_step(
        *c.groups,
        prefix,
        "groups"@,
        path,
        build,
        l[5],
        end,
        Err(e),
    )
    ||| process_passes(c, prefix, path, ctx, done, bash_exists, start, l, 7) && value_step(
        *c.limits,
        prefix,
        "limits"@,
        path,
        build,
        decode,
        l[6],
        end,
        Err(e),
    )
}

impl<'a> ResolvableCommand<'a> {
    /// The process of a service.
    pub fn from_service(raw: &'a RawServiceConfig) -> (r: Self)
        ensures
            cloned(raw.run, r.run),
            cloned(raw.command, r.command),
            *r.user == raw.user,
            *r.groups == raw.groups,
            *r.working_dir == raw.working_dir,
            *r.environment == raw.environment,
            *r.env_file == raw.env_file,
            *r.limits == raw.limits,
    {
        ResolvableCommand {
            run: raw.run.clone(),
            command: raw.command.clone(),
            user: &raw.user,
            groups: &raw.groups,
            working_dir: &raw.working_dir,
            environment: &raw.environment,
            env_file: &raw.env_file,
            limits: &raw.limits,
        }
    }

    /// The process of a hook. A script hook has a script and no command, a command hook a command
    /// and no script.
    pub fn from_hook(hook: &'a HookCommand) -> (r: Self)
        ensures
            match *hook {
                HookCommand::Script { run, .. } => script_kept(run, r.run) && (
                r.command matches ConfigValue::Static(list) && list@.len() == 0),
                HookCommand::Command { command, .. } => r.run == ConfigValue::Static(
                    None::<String>,
                ) && cloned(command, r.command),
            },
            *r.user == hook.common_part().user,
            *r.groups == hook.common_part().groups,
            *r.working_dir == hook.common_part().working_dir,
            *r.environment == hook.common_part().environment,
            *r.env_file == hook.common_part().env_file,
            *r.limits == hook.common_part().limits,
    {
        match hook {
            HookCommand::Script { run, common } => ResolvableCommand {
                run: run.map_static(present),
                command: ConfigValue::Static(Vec::new()),
                user: &common.user,
                groups: &common.groups,
                working_dir: &common.working_dir,
                environment: &common.environment,
                env_file: &common.env_file,
                limits: &common.limits,
            },
            HookCommand::Command { command, common } => ResolvableCommand {
                run: ConfigValue::Static(None),
                command: command.clone(),
                user: &common.user,
                groups: &common.groups,
                working_dir: &common.working_dir,
                environment: &common.environment,
                env_file: &common.env_file,
                limits: &common.limits,
            },
        }
    }

    /// The path of the environment file as it is written, computed in the context.
    pub fn resolve_env_file<S: Scripts>(
        &self,
        scripts: &mut S,
        ctx: &EvalContext,
        config_path: &str,
        field_prefix: &str,
    ) -> (r: Result<Option<String>, DaemonError>)
        ensures
            exists|built: bool| #[trigger]
                field_step(
                    *self.env_file,
                    field_path(field_prefix@, "env_file"@),
                    config_path@,
                    build_act(*ctx, false),
                    read_opt_text,
                    old(scripts).log(),
                    final(scripts).log(),
                    false,
                    built,
                    r,
                ),
    {
        let place = path_of_field(field_prefix, "env_file");
        self.env_file.resolve(scripts, ctx, config_path, place.as_str(), &read_opt_text)
    }

    /// Computes the process in a context: first its environment, entry by entry, and then its
    /// other fields, which see the whole environment. The variables of the environment file must
    /// be set in the context already.
    pub fn resolve<S: Scripts, L: Fn(&Yaml) -> Result<Option<ResourceLimits>, String>>(
        &self,
        scripts: &mut S,
        ctx: &mut EvalContext,
        config_path: &str,
        config_dir: &str,
        field_prefix: &str,
        clear_env: bool,
        bash_exists: bool,
        decode_limits: &L,
    ) -> (r: Result<CommandSpec, DaemonError>)
        requires
            forall|y: Yaml| #[trigger] call_requires(*decode_limits, (&y,)),
        ensures
            match r {
                Ok(out) => out.clear_env == clear_env && exists|
                    l1: Log,
                    l2: Log,
                    l3: Log,
                    l4: Log,
                    l5: Log,
                    l6: Log,
                    l7: Log,
                | #[trigger]
                    process_step(
                        *self,
                        field_prefix@,
                        config_path@,
                        config_dir@,
                        *old(ctx),
                        *final(ctx),
                        bash_exists,
                        *decode_limits,
                        old(scripts).log(),
                        l1,
                        l2,
                        l3,
                        l4,
                        l5,
                        l6,
                        l7,
                        final(scripts).log(),
                        out,
                    ),
                Err(e) => exists|l: Seq<Log>| #[trigger]
                    process_fails(
                        *self,
                        field_prefix@,
                        config_path@,
                        *old(ctx),
                        *final(ctx),
                        bash_exists,
                        *decode_limits,
                        old(scripts).log(),
                        l,
                        final(scripts).log(),
                        e,
                    ),
            },
    {
        let ghost start = scripts.log();
        let ghost c = *self;
        let ghost ctx0 = *ctx;
        let ghost prefix = field_prefix@;
        let ghost path = config_path@;
        let ghost decode = *decode_limits;
        if let Err(e) = prepare_env(scripts, &*ctx, true, config_path) {
            assert(process_fails(
                c,
                prefix,
                path,
                ctx0,
                *ctx,
                bash_exists,
                decode,
                start,
                seq![],
                scripts.log(),
                e,
            ));
            return Err(e);
        }
        let ghost l1 = scripts.log();
        let ghost p1 = seq![l1];
        let place = path_of_field(field_prefix, "environment");
        let entries = match resolve_environment(
            self.environment,
            scripts,
            ctx,
            config_path,
            place.as_str(),
            place.as_str(),
        ) {
            Ok(list) => list,
            Err(e) => {
                assert(process_fails(
                    c,
                    prefix,
                    path,
                    ctx0,
                    *ctx,
                    bash_exists,
                    decode,
                    start,
                    p1,
                    scripts.log(),
                    e,
                ));
                return Err(e);
            },
        };
        let ghost l2 = scripts.log();
        let ghost list = entries;
        let _ = scripts.perform(Order::Freeze);
        let ghost l3 = scripts.log();
        assert(extends(l2, l3, seq![Act::Freeze]));
        let ghost p3 = p1.push(l2).push(l3);
        assert(environment_passes(c, prefix, path, ctx0, *ctx, l1, l2));
        assert(process_passes(c, prefix, path, ctx0, *ctx, bash_exists, start, p3, 3));
        let shell = match &ctx.service {
            Some(s) => resolve_shell(&s.raw_env, bash_exists),
            None => {
                let none: NameMap<String> = NameMap::new();
                resolve_shell(&none, bash_exists)
            },
        };
        let program_and_args = match resolve_command(
            &self.run,
            &self.command,
            scripts,
            &*ctx,
            config_path,
            field_prefix,
            shell,
        ) {
            Ok(v) => v,
            Err(e) => {
                assert(process_fails(
                    c,
                    prefix,
                    path,
                    ctx0,
                    *ctx,
                    bash_exists,
                    decode,
                    start,
                    p3,
                    scripts.log(),
                    e,
                ));
                return Err(e);
            },
        };
        let ghost l4 = scripts.log();
        let ghost p4 = p3.push(l4);
        assert(process_passes(c, prefix, path, ctx0, *ctx, bash_exists, start, p4, 4));
        let dir = match resolve_value(
            self.working_dir,
            scripts,
            &*ctx,
            config_path,
            field_prefix,
            "working_dir",
            &read_opt_text,
        ) {
            Ok(v) => v,
            Err(e) => {
                assert(process_fails(
                    c,
                    prefix,
                    path,
                    ctx0,
                    *ctx,
                    bash_exists,
                    decode,
                    start,
                    p4,
                    scripts.log(),
                    e,
                ));
                return Err(e);
            },
        };
        let ghost l5 = scripts.log();
        let ghost p5 = p4.push(l5);
        assert(process_passes(c, prefix, path, ctx0, *ctx, bash_exists, start, p5, 5));
        let user = match resolve_value(
            self.user,
            scripts,
            &*ctx,
            config_path,
            field_prefix,
            "user",
            &read_opt_text,
        ) {
            Ok(v) => v,
            Err(e) => {
                assert(process_fails(
                    c,
                    prefix,
                    path,
                    ctx0,
                    *ctx,
                    bash_exists,
                    decode,
                    start,
                    p5,
                    scripts.log(),
                    e,
                ));
                return Err(e);
            },
        };
        let ghost l6 = scripts.log();
        let ghost p6 = p5.push(l6);
        assert(process_passes(c, prefix, path, ctx0, *ctx, bash_exists, start, p6, 6));
        let groups = match resolve_texts(
            self.groups,
            scripts,
            &*ctx,
            config_path,
            field_prefix,
            "groups",
        ) {
            Ok(v) => v,
            Err(e) => {
                assert(process_fails(
                    c,
                    prefix,
                    path,
                    ctx0,
                    *ctx,
                    bash_exists,
                    decode,
                    start,
                    p6,
                    scripts.log(),
                    e,
                ));
                return Err(e);
            },
        };
        let ghost l7 = scripts.log();
        let ghost p7 = p6.push(l7);
        assert(process_passes(c, prefix, path, ctx0, *ctx, bash_exists, start, p7, 7));
        let limits = match resolve_value(
            self.limits,
            scripts,
            &*ctx,
            config_path,
            field_prefix,
            "limits",
            decode_limits,
        ) {
            Ok(v) => v,
            Err(e) => {
                assert(process_fails(
                    c,
                    prefix,
                    path,
                    ctx0,
                    *ctx,
                    bash_exists,
                    decode,
                    start,
                    p7,
                    scripts.log(),
                    e,
                ));
                return Err(e);
            },
        };
        let ghost given = dir;
        let working_dir = match dir {
            Some(d) => join(config_dir, d.as_str()),
            None => config_dir.to_owned(),
        };
        let out = CommandSpec {
            program_and_args,
            working_dir,
            environment: ctx.active_env().clone(),
            user,
            groups,
            limits,
            clear_env,
        };
        proof {
            assert(environment_step(
                *c.environment,
                field_path(prefix, "environment"@),
                field_path(prefix, "environment"@),
                path,
                ctx0,
                *ctx,
                l1,
                l2,
                Ok(list),
            ));
            assert(value_step(
                *c.working_dir,
                prefix,
                "working_dir"@,
                path,
                build_act(*ctx, false),
                read_opt_text,
                l4,
                l5,
                Ok(given),
            ));
            assert(process_step(
                c,
                prefix,
                path,
                config_dir@,
                ctx0,
                *ctx,
                bash_exists,
                decode,
                start,
                l1,
                l2,
                l3,
                l4,
                l5,
                l6,
                l7,
                scripts.log(),
                out,
            ));
        }
        Ok(out)
    }
}

} // verus!
