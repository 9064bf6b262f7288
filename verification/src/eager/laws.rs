//! What commands do to a configuration that is computed when it is loaded, and what filling in its
//! variables does to it.
use vstd::prelude::*;
use crate::config::logs::{LogRetention, LogStoreConfig};
use crate::config::service::dependency_faults;
use crate::config_actor::context::{Deed, TaskHandleType};
use crate::config_actor::create::SnapshotStep;
use crate::eager::actor::{ConfigActor, ConfigCommand, ConfigReply, ExpandedConfigSnapshot, Source};
use crate::eager::config::{
    config_faults, env_files_expanded, environment_resolved, expand_hook_command,
    expand_service_config, resolve_log_retention, resolve_log_store, service_faults, validated,
    HookCommand, KeplerConfig, LogConfig, LogRetentionConfig, ServiceConfig,
};
use crate::eager::expand::{
    collect_readable, expand_value, expand_with_context, load_env_file, look_up, overlay,
    readable_env,
};
use crate::eager::document::{files_read, finished, load_ends, text_decoded};
use crate::eager::process::{answers, leaves, serves};
use crate::eager::restart::{RestartConfig, RestartPolicy};
use crate::env::texts;
use crate::errors::{DaemonError, ParseFailure};
use crate::lua_eval::FileReader;
use crate::name_map::NameMap;
use crate::state::{PersistedConfigState, ProcessHandle, ServiceState, ServiceStatus};
use crate::text::{occurs, opt_view, views};
use crate::value::Yaml;

verus! {

/// A status that is set is the status, and nothing else of the service changes; nor does any other
/// service.
pub proof fn law_status_is_set(
    prev: ConfigActor,
    name: String,
    status: ServiceStatus,
    next: ConfigActor,
    reply: ConfigReply,
    other: Seq<char>,
)
    requires
        serves(
            prev,
            next,
            ConfigCommand::SetServiceStatus { service_name: name, status },
            reply,
        ),
        prev.services@.contains_key(name@),
    ensures
        reply matches ConfigReply::Done(Ok(_)),
        next.services@[name@].status == status,
        next.services@[name@] == (ServiceState { status, ..prev.services@[name@] }),
        other != name@ && prev.services@.contains_key(other) ==> next.services@[other]
            == prev.services@[other],
        next.services.keys() == prev.services.keys(),
{
}

/// A process that is set is noted with its start; once its exit is recorded the service has no
/// process and the code that was recorded. The status stays.
pub proof fn law_process_is_noted_and_exit_recorded(
    prev: ConfigActor,
    name: String,
    pid: Option<u32>,
    started_at: Option<i64>,
    exit_code: Option<i32>,
    running: ConfigActor,
    done: ConfigActor,
    r1: ConfigReply,
    r2: ConfigReply,
)
    requires
        serves(
            prev,
            running,
            ConfigCommand::SetServicePid { service_name: name, pid, started_at },
            r1,
        ),
        serves(
            running,
            done,
            ConfigCommand::RecordProcessExit { service_name: name, exit_code },
            r2,
        ),
        prev.services@.contains_key(name@),
    ensures
        running.services@[name@] == (ServiceState { pid, started_at, ..prev.services@[name@] }),
        done.services@[name@] == (ServiceState {
            pid: None,
            exit_code,
            ..running.services@[name@]
        }),
        !done.processes@.contains_key(name@),
        r1 matches ConfigReply::Done(Ok(_)),
        r2 matches ConfigReply::Done(Ok(_)),
{
}

/// A check that passes makes a running or unhealthy service healthy and forgets the failures; one
/// that fails counts, and makes the service unhealthy once as many failed as are allowed.
pub proof fn law_check_changes_health(
    prev: ConfigActor,
    name: String,
    passed: bool,
    retries: u32,
    next: ConfigActor,
    reply: ConfigReply,
)
    requires
        serves(
            prev,
            next,
            ConfigCommand::UpdateHealthCheck { service_name: name, passed, retries },
            reply,
        ),
        prev.services@.contains_key(name@),
        prev.services@[name@].health_check_failures < u32::MAX,
    ensures
        ({
            let was = prev.services@[name@];
            let got = next.services@[name@];
            &&& passed ==> got.health_check_failures == 0
            &&& passed && (was.status == ServiceStatus::Running || was.status
                == ServiceStatus::Unhealthy) ==> got.status == ServiceStatus::Healthy
            &&& passed && was.status != ServiceStatus::Running && was.status
                != ServiceStatus::Unhealthy ==> got.status == was.status
            &&& !passed ==> got.health_check_failures == was.health_check_failures + 1
            &&& !passed && was.health_check_failures + 1 >= retries ==> got.status
                == ServiceStatus::Unhealthy
            &&& !passed && was.health_check_failures + 1 < retries ==> got.status == was.status
            &&& got == (ServiceState {
                status: got.status,
                health_check_failures: got.health_check_failures,
                ..was
            })
            &&& reply matches ConfigReply::Health(Ok(u))
            &&& u.previous_status == was.status
            &&& u.new_status == got.status
            &&& u.failures == got.health_check_failures
        }),
{
}

/// What is marked as initialized is, and a counted restart counts once.
pub proof fn law_marks_and_counts(
    prev: ConfigActor,
    name: String,
    marked: ConfigActor,
    counted: ConfigActor,
    all: ConfigActor,
    r1: ConfigReply,
    r2: ConfigReply,
    r3: ConfigReply,
)
    requires
        prev.services@.contains_key(name@),
        prev.services@[name@].restart_count < u32::MAX,
        serves(prev, marked, ConfigCommand::MarkServiceInitialized { service_name: name }, r1),
        serves(marked, counted, ConfigCommand::IncrementRestartCount { service_name: name }, r2),
        serves(counted, all, ConfigCommand::MarkConfigInitialized, r3),
    ensures
        marked.services@[name@] == (ServiceState { initialized: true, ..prev.services@[name@] }),
        counted.services@[name@].restart_count == prev.services@[name@].restart_count + 1,
        counted.services@[name@] == (ServiceState {
            restart_count: counted.services@[name@].restart_count,
            ..marked.services@[name@]
        }),
        all.initialized,
        all.services == counted.services,
{
}

/// A command on a service that is not known is refused with its name and changes nothing.
pub proof fn law_unknown_service_is_refused(
    prev: ConfigActor,
    cmd: ConfigCommand,
    name: String,
    next: ConfigActor,
    reply: ConfigReply,
)
    requires
        serves(prev, next, cmd, reply),
        !prev.services@.contains_key(name@),
        match cmd {
            ConfigCommand::SetServiceStatus { service_name, .. } => service_name == name,
            ConfigCommand::SetServicePid { service_name, .. } => service_name == name,
            ConfigCommand::RecordProcessExit { service_name, .. } => service_name == name,
            ConfigCommand::MarkServiceInitialized { service_name } => service_name == name,
            ConfigCommand::IncrementRestartCount { service_name } => service_name == name,
            _ => false,
        },
    ensures
        reply matches ConfigReply::Done(Err(DaemonError::ServiceNotFound(n))) && n@ == name@,
        next.services == prev.services,
{
}

/// A process that is stored is handed out once; a task that is stored is ended when it is
/// cancelled, and only once.
pub proof fn law_handles_are_handed_out_once(
    prev: ConfigActor,
    name: String,
    process: ProcessHandle,
    kind: TaskHandleType,
    task: u64,
    s1: ConfigActor,
    s2: ConfigActor,
    s3: ConfigActor,
    s4: ConfigActor,
    s5: ConfigActor,
    r1: ConfigReply,
    r2: ConfigReply,
    r3: ConfigReply,
    r4: ConfigReply,
    r5: ConfigReply,
)
    requires
        serves(prev, s1, ConfigCommand::StoreProcessHandle { service_name: name, process }, r1),
        serves(s1, s2, ConfigCommand::RemoveProcessHandle { service_name: name }, r2),
        serves(s2, s3, ConfigCommand::RemoveProcessHandle { service_name: name }, r3),
        serves(
            s3,
            s4,
            ConfigCommand::StoreTaskHandle { service_name: name, handle_type: kind, handle: task },
            r4,
        ),
        serves(
            s4,
            s5,
            ConfigCommand::CancelTaskHandle { service_name: name, handle_type: kind },
            r5,
        ),
    ensures
        r2 == ConfigReply::Process(Some(process)),
        r3 == ConfigReply::Process(None),
        leaves(s4, ConfigCommand::CancelTaskHandle { service_name: name, handle_type: kind })
            == seq![Deed::Abort(task)],
        leaves(
            s5,
            ConfigCommand::CancelTaskHandle { service_name: name, handle_type: kind },
        ).len() == 0,
        kind == TaskHandleType::HealthCheck ==> s5.watchers == prev.watchers,
        kind == TaskHandleType::FileWatcher ==> s5.health_checks == prev.health_checks,
        s5.services == prev.services,
{
}

/// What has to be done outside: logs are removed, a cancelled task is ended, and the states are
/// written when the configuration is shut down.
pub proof fn law_deeds_of_commands(
    prev: ConfigActor,
    name: String,
    status: ServiceStatus,
    pid: Option<u32>,
)
    ensures
        leaves(prev, ConfigCommand::ClearServiceLogs { service_name: name }) == seq![
            Deed::ClearLogs(name@),
        ],
        leaves(prev, ConfigCommand::ClearServiceLogsPrefix { prefix: name }) == seq![
            Deed::ClearLogsPrefix(name@),
        ],
        leaves(prev, ConfigCommand::Shutdown) == seq![Deed::SaveState],
        leaves(prev, ConfigCommand::SetServiceStatus { service_name: name, status }).len() == 0,
{
}

/// A configuration that was loaded again has its new services, stopped and without a process; a
/// service that was there before stays initialized. If it could not be loaded, nothing changes.
pub proof fn law_reload_begins_anew(
    prev: ConfigActor,
    loaded: Result<(KeplerConfig, NameMap<NameMap<String>>), DaemonError>,
    next: ConfigActor,
    reply: ConfigReply,
    i: int,
)
    requires
        serves(prev, next, ConfigCommand::ReloadConfig { loaded }, reply),
    ensures
        loaded is Err ==> next == prev && (reply matches ConfigReply::Done(Err(e)) && e
            == loaded->Err_0),
        loaded matches Ok((config, envs)) ==> {
            &&& (reply matches ConfigReply::Done(Ok(_)))
            &&& next.config == config
            &&& next.services.keys() == config.services.keys()
            &&& 0 <= i < next.services.values().len() ==> {
                let s = next.services.values()[i];
                let name = next.services.keys()[i];
                &&& s.status == ServiceStatus::Stopped
                &&& s.pid is None && s.exit_code is None
                &&& s.restart_count == 0 && s.health_check_failures == 0
                &&& s.initialized <==> prev.services@.contains_key(name)
                    && prev.services@[name].initialized
                &&& s.working_dir == match config.services.values()[i].working_dir {
                    Some(d) => d,
                    None => prev.config_dir,
                }
            }
            &&& next.config_path == prev.config_path
            &&& next.initialized == prev.initialized
        },
{
}

/// A snapshot that was removed is forgotten; if it could not be, nothing changes.
pub proof fn law_cleared_snapshot_is_forgotten(
    prev: ConfigActor,
    cleared: Result<(), DaemonError>,
    next: ConfigActor,
    reply: ConfigReply,
    answer: ConfigReply,
)
    requires
        serves(prev, next, ConfigCommand::ClearSnapshot { cleared }, reply),
        answers(next, ConfigCommand::IsRestoredFromSnapshot, answer),
    ensures
        reply matches ConfigReply::Done(r) && r == cleared,
        cleared is Ok ==> answer == ConfigReply::Flag(false) && !next.snapshot_taken
            && next.services == prev.services,
        cleared is Err ==> next == prev,
{
}

/// The answers on a service agree: it counts as running exactly if it is running, healthy or
/// unhealthy; all are stopped exactly if none counts as running.
pub proof fn law_answers_agree_on_running(
    actor: ConfigActor,
    name: String,
    one: ConfigReply,
    none: ConfigReply,
    state: ConfigReply,
    i: int,
)
    requires
        answers(actor, ConfigCommand::IsServiceRunning { service_name: name }, one),
        answers(actor, ConfigCommand::AllServicesStopped, none),
        answers(actor, ConfigCommand::GetServiceState { service_name: name }, state),
        0 <= i < actor.services.values().len(),
        actor.services@.contains_key(name@),
        actor.services@[name@] == actor.services.values()[i],
    ensures
        ({
            let status = actor.services@[name@].status;
            let runs = status == ServiceStatus::Running || status == ServiceStatus::Healthy
                || status == ServiceStatus::Unhealthy;
            &&& one == ConfigReply::Flag(runs)
            &&& none matches ConfigReply::Flag(stopped)
            &&& runs ==> !stopped
            &&& actor.services.values().len() == 1 && !runs ==> stopped
            &&& state matches ConfigReply::State(Some(s))
            &&& *s == actor.services@[name@]
        }),
{
}

/// A configuration that is loaded anew has every service stopped and never started; one that is
/// restored is that of the snapshot.
pub proof fn law_configuration_begins(
    path: String,
    state_dir: String,
    config: Result<KeplerConfig, DaemonError>,
    parent: Option<String>,
    envs: NameMap<NameMap<String>>,
    fresh: Result<ConfigActor, DaemonError>,
    snapshot: ExpandedConfigSnapshot,
    persisted: Option<PersistedConfigState>,
    restored: Result<ConfigActor, DaemonError>,
    i: int,
)
    requires
        call_ensures(
            ConfigActor::create,
            (path, state_dir, Source::Fresh { config, parent, envs }),
            fresh,
        ),
        call_ensures(
            ConfigActor::create,
            (path, state_dir, Source::Snapshot { snapshot, persisted }),
            restored,
        ),
    ensures
        fresh is Ok <==> config is Ok,
        fresh matches Ok(a) ==> {
            &&& a.config == config->Ok_0
            &&& a.services.keys() == config->Ok_0.services.keys()
            &&& 0 <= i < a.services.values().len() ==> {
                let s = a.services.values()[i];
                &&& s.status == ServiceStatus::Stopped
                &&& s.pid is None && s.exit_code is None && !s.initialized
                &&& s.restart_count == 0
                &&& s.working_dir == match a.config.services.values()[i].working_dir {
                    Some(d) => d,
                    None => a.config_dir,
                }
            }
            &&& !a.initialized && !a.snapshot_taken && !a.restored_from_snapshot
            &&& parent matches Some(dir) ==> a.config_dir == dir
            &&& parent is None ==> a.config_dir@ == "."@
        },
        restored matches Ok(a) && {
            &&& a.config == snapshot.config
            &&& a.config_dir == snapshot.config_dir
            &&& a.snapshot_taken && a.restored_from_snapshot
            &&& persisted is None ==> !a.initialized
            &&& persisted matches Some(p) ==> a.initialized == p.config_initialized
            &&& 0 <= i < a.services.values().len() ==> {
                let s = a.services.values()[i];
                let name = a.services.keys()[i];
                &&& persisted is None ==> s.status == ServiceStatus::Stopped && s.pid is None
                &&& persisted matches Some(p) ==> (p.services@.contains_key(name) ==> s.status
                    == p.services@[name].status && s.pid == p.services@[name].pid && s.exit_code
                    == p.services@[name].exit_code && s.restart_count
                    == p.services@[name].restart_count && s.initialized
                    == p.services@[name].initialized)
                &&& snapshot.service_working_dirs@.contains_key(name) ==> s.working_dir
                    == snapshot.service_working_dirs@[name]
                &&& !snapshot.service_working_dirs@.contains_key(name) ==> s.working_dir
                    == snapshot.config_dir
            }
        },
{
}

/// A snapshot is taken once, in three steps; the first fault ends it.
pub proof fn law_snapshot_is_taken_in_steps(
    a: &mut ConfigActor,
    begin: SnapshotStep,
    step: SnapshotStep,
    outcome: Result<(), DaemonError>,
    next: SnapshotStep,
)
    requires
        call_ensures(ConfigActor::take_snapshot_if_needed, (&*old(a),), begin),
        call_ensures(ConfigActor::next_snapshot_step, (a, step, outcome), next),
    ensures
        old(a).snapshot_taken ==> begin == SnapshotStep::Done(Ok(false)),
        !old(a).snapshot_taken ==> begin is CopyEnvFiles,
        outcome is Ok && step is CopyEnvFiles ==> next is SaveSnapshot,
        outcome is Ok && step is SaveSnapshot ==> next is SaveState && final(a).snapshot_taken,
        outcome is Ok && step is SaveState ==> next == SnapshotStep::Done(Ok(true)),
        outcome is Err && !(step is Done) ==> next == SnapshotStep::Done(Err(outcome->Err_0)),
        outcome is Err || !(step is SaveSnapshot) ==> final(a).snapshot_taken
            == old(a).snapshot_taken,
        final(a).services == old(a).services,
{
}

/// When a configuration is let go of, its health checks and watchers have to be ended; the states
/// stay.
pub proof fn law_cleanup_ends_every_task(a: &mut ConfigActor, tasks: Vec<u64>, i: int, t: u64)
    requires
        call_ensures(ConfigActor::cleanup, (a,), tasks),
    ensures
        0 <= i < old(a).health_checks.values().len() && old(a).health_checks.values()[i] == t
            ==> tasks@.contains(t),
        0 <= i < old(a).watchers.values().len() && old(a).watchers.values()[i] == t
            ==> tasks@.contains(t),
        final(a).services == old(a).services,
        final(a).processes.keys().len() == 0,
        final(a).health_checks.keys().len() == 0,
        final(a).watchers.keys().len() == 0,
{
    let h = old(a).health_checks.values();
    let w = old(a).watchers.values();
    if 0 <= i < h.len() && h[i] == t {
        assert(tasks@[i] == t);
    }
    if 0 <= i < w.len() && w[i] == t {
        assert(tasks@[h.len() + i] == t);
    }
}

// ---------------------------------------------------------------------------------------------
// Variables
// ---------------------------------------------------------------------------------------------

/// Of a service with nothing to fill in nothing changes. In any case its command, its health check,
/// its log settings and the path of its file stay, and so do its restart policy and its limits on
/// time and files.
pub proof fn law_filling_in_keeps_the_command(
    service: &mut ServiceConfig,
    vars: NameMap<String>,
)
    requires
        call_ensures(expand_service_config, (service, vars), ()),
    ensures
        final(service).command == old(service).command,
        final(service).healthcheck == old(service).healthcheck,
        final(service).logs == old(service).logs,
        final(service).env_file == old(service).env_file,
        final(service).environment@.len() == old(service).environment@.len(),
        final(service).depends_on@.len() == old(service).depends_on@.len(),
        final(service).user is Some <==> old(service).user is Some,
        final(service).group is Some <==> old(service).group is Some,
        final(service).working_dir is Some <==> old(service).working_dir is Some,
        final(service).hooks is Some <==> old(service).hooks is Some,
        final(service).limits is Some <==> old(service).limits is Some,
        old(service).limits matches Some(l) ==> (final(service).limits matches Some(k) && k.cpu_time
            == l.cpu_time && k.max_fds == l.max_fds && (k.memory is Some <==> l.memory is Some)),
        old(service).restart matches RestartConfig::Simple(p) ==> final(service).restart
            == RestartConfig::Simple(p),
        old(service).restart matches RestartConfig::Extended { policy, watch } ==> (
        final(service).restart matches RestartConfig::Extended { policy: p, watch: w } && p == policy
            && w@.len() == watch@.len()),
{
    let before = *old(service);
    let after = *final(service);
    lemma_entries_len(views(before.environment@), before.environment@.len(), texts(vars@));
    assert(views(after.environment@).len() == after.environment@.len());
    assert(views(before.environment@).len() == before.environment@.len());
    assert(views(after.depends_on@).len() == after.depends_on@.len());
    assert(views(before.depends_on@).len() == before.depends_on@.len());
    if let (
        RestartConfig::Extended { policy: a, watch: v },
        RestartConfig::Extended { policy: b, watch: w },
    ) = (before.restart, after.restart) {
        assert(views(v@).len() == v@.len());
        assert(views(w@).len() == w@.len());
    }
}

/// Each entry stays an entry.
proof fn lemma_entries_len(list: Seq<Seq<char>>, n: nat, vars: Map<Seq<char>, Seq<char>>)
    requires
        n <= list.len(),
    ensures
        crate::eager::expand::expanded_entries(list, n, vars).0.len() == n,
    decreases n,
{
    if n > 0 {
        lemma_entries_len(list, (n - 1) as nat, vars);
    }
}

/// A name stands for its variable, and for nothing known without one. `NAME:+text` stands for the
/// text if the variable is there and not empty, and else for the empty text.
pub proof fn law_names_stand_for_variables(
    vars: NameMap<String>,
    key: Seq<char>,
    text: Seq<char>,
    plain: &str,
    marked: &str,
    r: Option<String>,
    s: Option<String>,
)
    requires
        call_ensures(look_up, (&vars, plain), r),
        call_ensures(look_up, (&vars, marked), s),
        plain@ == key,
        marked@ == key + seq![':', '+'] + text,
        forall|j: int| 0 <= j < key.len() ==> #[trigger] key[j] != ':',
    ensures
        vars@.contains_key(key) ==> opt_view(r) == Some(vars@[key]@),
        !vars@.contains_key(key) ==> r is None,
        vars@.contains_key(key) && vars@[key]@.len() > 0 ==> opt_view(s) == Some(text),
        !vars@.contains_key(key) || vars@[key]@.len() == 0 ==> opt_view(s) == Some(
            Seq::<char>::empty(),
        ),
{
    reveal_strlit(":+");
    assert(":+"@ =~= seq![':', '+']);
    let i = crate::text::find_from(key, ":+"@, 0);
    crate::text::lemma_find_from(key, ":+"@, 0);
    if i <= key.len() {
        assert(crate::text::stands_at(key, ":+"@, i));
        assert(key[i] == ':');
    }
    let t = texts(vars@);
    assert(t.contains_key(key) <==> vars@.contains_key(key));
    let m = marked@;
    let j = crate::text::find_from(m, ":+"@, 0);
    crate::text::lemma_find_from(m, ":+"@, 0);
    assert(m[key.len() as int] == ':' && m[key.len() as int + 1] == '+');
    assert(m.subrange(key.len() as int, key.len() as int + ":+"@.len()) =~= ":+"@);
    assert(crate::text::stands_at(m, ":+"@, key.len() as int));
    if j < key.len() {
        assert(crate::text::stands_at(m, ":+"@, j));
        assert(m[j] == ':');
        assert(m[j] == key[j]);
    }
    assert(j == key.len());
    assert(m.take(j) =~= key);
    assert(m.skip(j + 2) =~= text);
}

/// Variables over others count first.
pub proof fn law_upper_variables_count_first(
    lower: NameMap<String>,
    upper: NameMap<String>,
    r: NameMap<String>,
    k: Seq<char>,
)
    requires
        call_ensures(overlay, (&lower, &upper), r),
    ensures
        upper@.contains_key(k) ==> r@.contains_key(k) && r@[k]@ == upper@[k]@,
        !upper@.contains_key(k) && lower@.contains_key(k) ==> r@.contains_key(k) && r@[k]@
            == lower@[k]@,
        !upper@.contains_key(k) && !lower@.contains_key(k) ==> !r@.contains_key(k),
{
    let t = texts(r@);
    assert(t.contains_key(k) <==> r@.contains_key(k));
    assert(texts(upper@).contains_key(k) <==> upper@.contains_key(k));
    assert(texts(lower@).contains_key(k) <==> lower@.contains_key(k));
    if r@.contains_key(k) {
        assert(t[k] == r@[k]@);
    }
    if upper@.contains_key(k) {
        assert(texts(upper@)[k] == upper@[k]@);
    }
    if lower@.contains_key(k) {
        assert(texts(lower@)[k] == lower@[k]@);
    }
}

/// Items of a file that cannot be read are left out; of the others the last of a name counts.
pub proof fn law_unreadable_items_are_left_out(
    items: Vec<Result<(String, String), String>>,
    r: NameMap<String>,
    k: int,
    name: Seq<char>,
)
    requires
        call_ensures(collect_readable, (&items,), r),
    ensures
        0 <= k < items@.len() && (items@[k] matches Ok((n, v)) && n@ == name) && (forall|j: int|
            k < j < items@.len() && (#[trigger] items@[j]) is Ok ==> items@[j]->Ok_0.0@ != name)
            ==> r@.contains_key(name) && r@[name]@ == items@[k]->Ok_0.1@,
        (forall|j: int|
            0 <= j < items@.len() && (#[trigger] items@[j]) is Ok ==> items@[j]->Ok_0.0@ != name)
            ==> !r@.contains_key(name),
{
    assert(texts(r@).contains_key(name) <==> r@.contains_key(name));
    lemma_readable(items@, items@.len(), k, name);
}

/// What the first items hold of a name.
proof fn lemma_readable(
    items: Seq<Result<(String, String), String>>,
    n: nat,
    k: int,
    name: Seq<char>,
)
    requires
        n <= items.len(),
    ensures
        0 <= k < n && (items[k] matches Ok((m, v)) && m@ == name) && (forall|j: int|
            k < j < n && (#[trigger] items[j]) is Ok ==> items[j]->Ok_0.0@ != name) ==> readable_env(
            items,
            n,
        ).contains_key(name) && readable_env(items, n)[name] == items[k]->Ok_0.1@,
        (forall|j: int| 0 <= j < n && (#[trigger] items[j]) is Ok ==> items[j]->Ok_0.0@ != name)
            ==> !readable_env(items, n).contains_key(name),
    decreases n,
{
    if n > 0 {
        lemma_readable(items, (n - 1) as nat, k, name);
    }
}

// ---------------------------------------------------------------------------------------------
// Settings
// ---------------------------------------------------------------------------------------------

/// Each occasion has its own setting for logs; the setting of the service comes before the global
/// one, and by default both streams are stored.
pub proof fn law_log_settings(
    logs: LogConfig,
    kept: LogRetentionConfig,
    r: Option<LogRetention>,
    service: Option<&LogConfig>,
    global: Option<&LogConfig>,
    stored: (bool, bool),
)
    requires
        logs.retention == Some(kept),
        call_ensures(resolve_log_store, (service, global), stored),
    ensures
        call_ensures(LogConfig::get_on_stop, (&logs,), r) ==> r == kept.on_stop,
        call_ensures(LogConfig::get_on_start, (&logs,), r) ==> r == kept.on_start,
        call_ensures(LogConfig::get_on_restart, (&logs,), r) ==> r == kept.on_restart,
        call_ensures(LogConfig::get_on_exit, (&logs,), r) ==> r == kept.on_exit,
        ({
            let own = match service {
                Some(l) => l.store,
                None => None,
            };
            let shared = match global {
                Some(l) => l.store,
                None => None,
            };
            &&& own matches Some(LogStoreConfig::Simple(b)) ==> stored == (b, b)
            &&& own matches Some(LogStoreConfig::Extended { stdout, stderr }) ==> stored == (
                stdout,
                stderr,
            )
            &&& own is None ==> {
                &&& shared matches Some(LogStoreConfig::Simple(b)) ==> stored == (b, b)
                &&& shared matches Some(LogStoreConfig::Extended { stdout, stderr }) ==> stored == (
                    stdout,
                    stderr,
                )
                &&& shared is None ==> stored == (true, true)
            }
        }),
{
}

/// The setting of the service comes before the global one, and that one before the default.
pub proof fn law_service_retention_comes_first<F: Fn(&LogConfig) -> Option<LogRetention>>(
    service: Option<&LogConfig>,
    global: Option<&LogConfig>,
    get: F,
    default: LogRetention,
    of_service: Option<LogRetention>,
    of_global: Option<LogRetention>,
    r: LogRetention,
)
    requires
        call_ensures(resolve_log_retention::<F>, (service, global, get, default), r),
        match service {
            Some(l) => forall|x: Option<LogRetention>| #[trigger]
                call_ensures(get, (l,), x) ==> x == of_service,
            None => of_service is None,
        },
        match global {
            Some(l) => forall|x: Option<LogRetention>| #[trigger]
                call_ensures(get, (l,), x) ==> x == of_global,
            None => of_global is None,
        },
    ensures
        of_service is Some ==> Some(r) == of_service,
        of_service is None && of_global is Some ==> Some(r) == of_global,
        of_service is None && of_global is None ==> r == default,
{
}

/// Whether a service can be run as it is configured.
pub open spec fn sound_service(
    name: Seq<char>,
    service: ServiceConfig,
    services: Seq<Seq<char>>,
) -> bool {
    &&& name.len() > 0
    &&& forall|i: int|
        0 <= i < name.len() ==> {
            ||| 'a' <= (#[trigger] name[i]) <= 'z'
            ||| '0' <= name[i] <= '9'
            ||| name[i] == '_'
            ||| name[i] == '-'
        }
    &&& service.command@.len() > 0
    &&& forall|k: int|
        0 <= k < service.depends_on@.len() ==> services.contains(
            (#[trigger] service.depends_on@[k])@,
        )
    &&& service.restart matches RestartConfig::Extended { policy, watch } ==> watch@.len() > 0
        ==> policy != RestartPolicy::No
}

/// Messages come of dependencies exactly if one is not among the services.
proof fn lemma_dependencies(name: Seq<char>, deps: Seq<Seq<char>>, services: Seq<Seq<char>>)
    ensures
        dependency_faults(name, deps, services).len() == 0 <==> forall|k: int|
            0 <= k < deps.len() ==> services.contains(#[trigger] deps[k]),
    decreases deps.len(),
{
    if deps.len() > 0 {
        let front = deps.drop_last();
        lemma_dependencies(name, front, services);
        if forall|k: int| 0 <= k < deps.len() ==> services.contains(#[trigger] deps[k]) {
            assert forall|k: int| 0 <= k < front.len() implies services.contains(
                #[trigger] front[k],
            ) by {
                assert(services.contains(deps[k]));
            }
            assert(services.contains(deps[deps.len() - 1]));
        }
        if dependency_faults(name, deps, services).len() == 0 {
            assert forall|k: int| 0 <= k < deps.len() implies services.contains(
                #[trigger] deps[k],
            ) by {
                if k < front.len() {
                    assert(services.contains(front[k]));
                }
            }
        }
    }
}

/// There is no message on a service exactly if it is sound.
proof fn lemma_sound(name: Seq<char>, service: ServiceConfig, services: Seq<Seq<char>>)
    ensures
        service_faults(name, service, services).len() == 0 <==> sound_service(
            name,
            service,
            services,
        ),
{
    let deps = views(service.depends_on@);
    lemma_dependencies(name, deps, services);
    assert((forall|k: int| 0 <= k < deps.len() ==> services.contains(#[trigger] deps[k])) <==> (
    forall|k: int|
        0 <= k < service.depends_on@.len() ==> services.contains(
            (#[trigger] service.depends_on@[k])@,
        ))) by {
        if forall|k: int| 0 <= k < deps.len() ==> services.contains(#[trigger] deps[k]) {
            assert forall|k: int| 0 <= k < service.depends_on@.len() implies services.contains(
                (#[trigger] service.depends_on@[k])@,
            ) by {
                assert(services.contains(deps[k]));
            }
        }
    }
    assert((forall|i: int|
        0 <= i < name.len() ==> crate::config::service::name_char(#[trigger] name[i])) <==> (forall|
        i: int,
    |
        0 <= i < name.len() ==> {
            ||| 'a' <= (#[trigger] name[i]) <= 'z'
            ||| '0' <= name[i] <= '9'
            ||| name[i] == '_'
            ||| name[i] == '-'
        }));
    if let RestartConfig::Extended { policy, watch } = service.restart {
        assert(views(watch@).len() == watch@.len());
    }
}

/// There is no message on the first services exactly if each of them is sound.
proof fn lemma_all_sound(services: NameMap<ServiceConfig>, n: nat)
    ensures
        config_faults(services, n).len() == 0 <==> forall|i: int|
            0 <= i < n ==> sound_service(
                services.keys()[i],
                #[trigger] services.values()[i],
                services.keys(),
            ),
    decreases n,
{
    if n > 0 {
        lemma_all_sound(services, (n - 1) as nat);
        lemma_sound(services.keys()[n - 1], services.values()[n - 1], services.keys());
        if forall|i: int|
            0 <= i < n ==> sound_service(
                services.keys()[i],
                #[trigger] services.values()[i],
                services.keys(),
            ) {
            assert(sound_service(
                services.keys()[n - 1],
                services.values()[n - 1],
                services.keys(),
            ));
        }
    }
}

/// A configuration is accepted exactly if every service in it is sound: its name is made of lower
/// case letters, digits, underscores and hyphens, it has a command, it depends on services of the
/// configuration only, and it watches files only if it restarts.
pub proof fn law_valid_means_every_service_is_sound(
    config: KeplerConfig,
    path: &str,
    r: Result<(), DaemonError>,
)
    requires
        call_ensures(KeplerConfig::validate, (&config, path), r),
    ensures
        r is Ok <==> forall|i: int|
            0 <= i < config.services.keys().len() ==> sound_service(
                config.services.keys()[i],
                #[trigger] config.services.values()[i],
                config.services.keys(),
            ),
        r matches Err(e) ==> e is Config,
{
    lemma_all_sound(config.services, config.services.keys().len());
}

/// Variables of the context count before those of the system: it is as if both were given as one
/// set, in which those of the context stand over the others.
pub proof fn law_context_counts_first(
    s: &str,
    context: NameMap<String>,
    sys_env: NameMap<String>,
    one: NameMap<String>,
    none: NameMap<String>,
    r: String,
    t: String,
)
    requires
        call_ensures(overlay, (&sys_env, &context), one),
        none@ == Map::<Seq<char>, String>::empty(),
        call_ensures(expand_with_context, (s, &context, &sys_env), r),
        call_ensures(expand_with_context, (s, &one, &none), t),
    ensures
        r@ == t@,
        !s@.contains('$') ==> r@ == s@,
{
    assert(texts(none@) =~= Map::<Seq<char>, Seq<char>>::empty());
    assert(texts(none@).union_prefer_right(texts(one@)) =~= texts(one@));
}

/// The directory, the user and the group of a service are filled in with the variables that are
/// given; what it depends on sees those that its environment sets as well.
pub proof fn law_what_each_field_sees(
    service: &mut ServiceConfig,
    vars: NameMap<String>,
    more: NameMap<String>,
    key: Seq<char>,
    value: Seq<char>,
    text: &str,
    seen: String,
    later: String,
)
    requires
        call_ensures(expand_service_config, (service, vars), ()),
        call_ensures(expand_value, (text, &vars), seen),
        call_ensures(expand_value, (text, &more), later),
        texts(more@) == texts(vars@).insert(key, value),
        forall|j: int| 0 <= j < key.len() ==> #[trigger] key[j] != '=',
        old(service).environment@.len() == 1,
        final(service).environment@[0]@ == key + seq!['='] + value,
    ensures
        old(service).working_dir matches Some(d) ==> (d@ == text@ ==> (
        final(service).working_dir matches Some(w) && w@ == seen@)),
        old(service).user matches Some(d) ==> (d@ == text@ ==> (final(service).user matches Some(w)
            && w@ == seen@)),
        old(service).group matches Some(d) ==> (d@ == text@ ==> (final(service).group matches Some(w)
            && w@ == seen@)),
        old(service).environment@[0]@ == text@ ==> final(service).environment@[0]@ == seen@,
        old(service).depends_on@.len() == 1 && old(service).depends_on@[0]@ == text@ ==> final(
            service).depends_on@.len() == 1 && final(service).depends_on@[0]@ == later@,
{
    let before = *old(service);
    let after = *final(service);
    let list = views(before.environment@);
    assert(list.len() == 1);
    assert(list[0] == before.environment@[0]@);
    reveal_with_fuel(crate::eager::expand::expanded_entries, 2);
    let entries = crate::eager::expand::expanded_entries(list, 1, texts(vars@));
    let first = crate::eager::expand::filled(list[0], texts(vars@));
    assert(entries.0 =~= seq![first]);
    assert(views(after.environment@).len() == after.environment@.len());
    assert(views(after.environment@)[0] == after.environment@[0]@);
    crate::env::lemma_split_entry(key, value);
    assert(entries.1 == texts(more@));
    assert(views(before.depends_on@).len() == before.depends_on@.len());
    assert(views(after.depends_on@).len() == after.depends_on@.len());
    if before.depends_on@.len() == 1 {
        assert(views(before.depends_on@)[0] == before.depends_on@[0]@);
        assert(views(after.depends_on@)[0] == after.depends_on@[0]@);
    }
}

/// The script or the command of a hook is left to the shell; its user, its group, its directory
/// and its file are filled in.
pub proof fn law_hook_keeps_its_command(
    hook: &mut HookCommand,
    vars: NameMap<String>,
    text: &str,
    seen: String,
)
    requires
        call_ensures(expand_hook_command, (hook, &vars), ()),
        call_ensures(expand_value, (text, &vars), seen),
    ensures
        final(hook)@.script == old(hook)@.script,
        final(hook)@.command == old(hook)@.command,
        old(hook)@.user == Some(text@) ==> final(hook)@.user == Some(seen@),
        old(hook)@.group == Some(text@) ==> final(hook)@.group == Some(seen@),
        old(hook)@.working_dir == Some(text@) ==> final(hook)@.working_dir == Some(seen@),
        old(hook)@.env_file == Some(text@) ==> final(hook)@.env_file == Some(seen@),
        old(hook)@.user is None ==> final(hook)@.user is None,
        old(hook)@.group is None ==> final(hook)@.group is None,
        final(hook)@.environment.len() == old(hook)@.environment.len(),
{
}

/// The path of an environment file is filled in with the variables of the system; the variables of
/// a service are those of the system, under those of its file.
pub proof fn law_files_stand_over_the_system(
    config: &mut KeplerConfig,
    paths: &mut KeplerConfig,
    sys_env: NameMap<String>,
    files: NameMap<NameMap<String>>,
    both: NameMap<String>,
    i: int,
    text: &str,
    with_file: String,
    without: String,
)
    requires
        call_ensures(KeplerConfig::resolve_environment, (config, &sys_env, &files), ()),
        call_ensures(KeplerConfig::expand_env_files, (paths, &sys_env), ()),
        0 <= i < old(config).services.values().len(),
        files@.contains_key(old(config).services.keys()[i]) ==> call_ensures(
            overlay,
            (&sys_env, &files@[old(config).services.keys()[i]]),
            both,
        ),
        call_ensures(expand_value, (text, &both), with_file),
        call_ensures(expand_value, (text, &sys_env), without),
    ensures
        old(config).services.values()[i].working_dir matches Some(d) ==> (d@ == text@ ==> (
        final(config).services.values()[i].working_dir matches Some(w) && w@ == if files@.contains_key(
            old(config).services.keys()[i],
        ) {
            with_file@
        } else {
            without@
        })),
        final(config).services.keys() == old(config).services.keys(),
        0 <= i < old(paths).services.values().len() ==> (
        old(paths).services.values()[i].env_file matches Some(p) ==> (p@ == text@ ==> (
        final(paths).services.values()[i].env_file matches Some(q) && q@ == without@))),
{
    let before = old(config).services.values()[i];
    let after = final(config).services.values()[i];
    if 0 <= i < old(paths).services.values().len() {
        let a = old(paths).services.values()[i];
        let b = final(paths).services.values()[i];
        assert(crate::eager::config::file_expanded(a, b, texts(sys_env@)));
    }
}

/// An environment file that is not there has no variables.
pub proof fn law_missing_file_has_no_variables(r: NameMap<String>, k: Seq<char>)
    requires
        call_ensures(load_env_file, (None,), r),
    ensures
        !r@.contains_key(k),
{
    assert(!texts(r@).contains_key(k));
}

/// A configuration that is loaded is valid. Contents that mention no code are decoded as they are:
/// the configuration has their services, with their commands.
pub proof fn law_loaded_configuration<
    F: Fn(&str) -> Result<Vec<u8>, String>,
    D: Fn(&Yaml) -> Result<KeplerConfig, ParseFailure>,
    T: Fn(&str) -> Result<KeplerConfig, ParseFailure>,
>(
    path: &str,
    dir: &str,
    contents: &str,
    sys_env: NameMap<String>,
    reader: FileReader<F>,
    decode: D,
    decode_text: T,
    config: KeplerConfig,
    valid: Result<(), DaemonError>,
)
    requires
        call_ensures(
            KeplerConfig::load::<F, D, T>,
            (path, dir, contents, &sys_env, &reader, &decode, &decode_text),
            Ok::<KeplerConfig, DaemonError>(config),
        ),
        call_ensures(KeplerConfig::validate, (&config, path), valid),
    ensures
        valid is Ok,
        !occurs(contents@, "!lua"@) ==> exists|text: &str, given: KeplerConfig| #[trigger]
            call_ensures(decode_text, (text,), Ok::<KeplerConfig, ParseFailure>(given)) && text@
                == contents@ && config.services.keys() == given.services.keys() && (forall|i: int|
                0 <= i < given.services.values().len() ==> (
                #[trigger] config.services.values()[i]).command
                    == given.services.values()[i].command),
{
    if !occurs(contents@, "!lua"@) {
        let middle = choose|middle: Result<KeplerConfig, DaemonError>| #[trigger]
            text_decoded(decode_text, contents@, path@, middle) && load_ends(
                reader,
                middle,
                texts(sys_env@),
                path@,
                Ok(config),
            );
        let given = middle->Ok_0;
        let (text, got) = choose|text: &str, got: Result<KeplerConfig, ParseFailure>| #[trigger]
            call_ensures(decode_text, (text,), got) && text@ == contents@ && match got {
                Ok(c) => middle == Ok::<KeplerConfig, DaemonError>(c),
                Err(failure) => middle matches Err(DaemonError::ConfigParse { path: p, failure: f })
                    && p@ == path@ && f == failure,
            };
        assert(got == Ok::<KeplerConfig, ParseFailure>(given));
        lemma_finished(reader, given, texts(sys_env@), path@, config);
        assert(call_ensures(decode_text, (text,), Ok::<KeplerConfig, ParseFailure>(given)));
    }
}

/// Filling in keeps the services and their commands.
proof fn lemma_finished<F: Fn(&str) -> Result<Vec<u8>, String>>(
    reader: FileReader<F>,
    given: KeplerConfig,
    sys: Map<Seq<char>, Seq<char>>,
    path: Seq<char>,
    config: KeplerConfig,
)
    requires
        finished(reader, given, sys, path, Ok(config)),
    ensures
        config.services.keys() == given.services.keys(),
        config.faults().len() == 0,
        forall|i: int|
            0 <= i < given.services.values().len() ==> (
            #[trigger] config.services.values()[i]).command == given.services.values()[i].command,
{
    let (middle, files, done) = choose|
        middle: KeplerConfig,
        files: NameMap<NameMap<String>>,
        done: KeplerConfig,
    |
        {
            &&& env_files_expanded(given, middle, sys)
            &&& #[trigger] files_read(
                reader,
                middle.services,
                middle.services.keys().len() as int,
                files,
            )
            &&& #[trigger] environment_resolved(middle, done, sys, files)
            &&& validated(done, path, Ok(config))
        };
    assert forall|i: int| 0 <= i < given.services.values().len() implies (
    #[trigger] config.services.values()[i]).command == given.services.values()[i].command by {
        let a = given.services.values()[i];
        let b = middle.services.values()[i];
        let c = done.services.values()[i];
        assert(crate::eager::config::file_expanded(a, b, sys));
        assert(crate::eager::config::service_expanded(
            b,
            c,
            crate::eager::config::service_vars(sys, files, middle.services.keys()[i]),
        ));
    }
}

} // verus!
