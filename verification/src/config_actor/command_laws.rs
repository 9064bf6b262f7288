//! What commands do to the state of one service, to its tasks and to what others are told, and how
//! commands in a row relate.
use vstd::prelude::*;
use crate::config::service::ServiceConfig;
use crate::config_actor::actor::ConfigActor;
use crate::config_actor::command::{ConfigCommand, ConfigReply, Outcome};
use crate::config_actor::context::{Deed, Effect, TaskHandleType};
use crate::config_actor::picture::Picture;
use crate::config_actor::process::{handled, running_names, unheard_names};
use crate::deps::is_failure_handled;
use crate::errors::DaemonError;
use crate::events::ServiceEvent;
use crate::logs::LogRead;
use crate::name_map::NameMap;
use crate::state::{ProcessHandle, ServiceState, ServiceStatus};
use crate::text::views;

verus! {

/// Whether a command added a deed.
pub open spec fn added(before: Seq<Deed>, after: Seq<Deed>, deed: Deed) -> bool {
    exists|k: int| before.len() <= k < after.len() && after[k] == deed
}

/// A status that is set is the status of the service from then on, and no other service changes.
/// Restarts that were counted, and what was computed for the service, stay.
pub proof fn law_status_is_set(
    prev: ConfigActor,
    name: String,
    status: ServiceStatus,
    now: i64,
    next: ConfigActor,
    reply: ConfigReply,
    before: Seq<Deed>,
    after: Seq<Deed>,
    other: Seq<char>,
)
    requires
        handled(
            prev,
            ConfigCommand::SetServiceStatus { service_name: name, status },
            now,
            next,
            reply,
            before,
            after,
        ),
        prev.services@.contains_key(name@),
    ensures
        reply matches ConfigReply::Done(Ok(_)),
        ({
            let was = prev.services@[name@];
            let got = next.services@[name@];
            &&& got.status == status
            &&& got.restart_count == was.restart_count
            &&& got.initialized == was.initialized
            &&& got.computed_env == was.computed_env
            &&& got.env_file_vars == was.env_file_vars
            &&& got.working_dir == was.working_dir
        }),
        next.services@.contains_key(other) <==> prev.services@.contains_key(other),
        other != name@ && prev.services@.contains_key(other) ==> next.services@[other]
            == prev.services@[other],
        next.processes == prev.processes,
        next.resolved_configs == prev.resolved_configs,
        next.startup_in_progress == prev.startup_in_progress,
        after.len() >= before.len() + 3,
        after[before.len() as int] == Deed::NotifyWatchers(name@, status),
        after[before.len() as int + 1] == Deed::NotifyStatus(name@, status),
        after.last() == Deed::SaveState,
{
}

/// A service that starts or runs begins anew: no exit code, no signal, no end, no failed checks
/// and no known health. Its process stays.
pub proof fn law_start_begins_anew(
    prev: ConfigActor,
    name: String,
    status: ServiceStatus,
    now: i64,
    next: ConfigActor,
    reply: ConfigReply,
    before: Seq<Deed>,
    after: Seq<Deed>,
)
    requires
        handled(
            prev,
            ConfigCommand::SetServiceStatus { service_name: name, status },
            now,
            next,
            reply,
            before,
            after,
        ),
        prev.services@.contains_key(name@),
        status == ServiceStatus::Starting || status == ServiceStatus::Running,
    ensures
        ({
            let was = prev.services@[name@];
            let got = next.services@[name@];
            &&& got.exit_code is None
            &&& got.signal is None
            &&& got.stopped_at is None
            &&& got.health_check_failures == 0
            &&& !got.was_healthy
            &&& got.pid == was.pid
            &&& got.started_at == was.started_at
            &&& status == ServiceStatus::Starting ==> got.fail_reason is None && got.skip_reason is None
            &&& status == ServiceStatus::Running ==> got.fail_reason == was.fail_reason
                && got.skip_reason == was.skip_reason
        }),
{
}

/// A service that ends or is skipped has no process any more and ended now. How it ended, its
/// health and the reasons stay.
pub proof fn law_end_clears_the_process(
    prev: ConfigActor,
    name: String,
    status: ServiceStatus,
    now: i64,
    next: ConfigActor,
    reply: ConfigReply,
    before: Seq<Deed>,
    after: Seq<Deed>,
)
    requires
        handled(
            prev,
            ConfigCommand::SetServiceStatus { service_name: name, status },
            now,
            next,
            reply,
            before,
            after,
        ),
        prev.services@.contains_key(name@),
        status == ServiceStatus::Stopped || status == ServiceStatus::Exited || status
            == ServiceStatus::Failed || status == ServiceStatus::Killed || status
            == ServiceStatus::Skipped,
    ensures
        ({
            let was = prev.services@[name@];
            let got = next.services@[name@];
            &&& got.pid is None
            &&& got.started_at is None
            &&& got.stopped_at == Some(now)
            &&& got.exit_code == was.exit_code
            &&& got.signal == was.signal
            &&& got.was_healthy == was.was_healthy
            &&& got.health_check_failures == was.health_check_failures
            &&& got.fail_reason == was.fail_reason
            &&& got.skip_reason == was.skip_reason
        }),
{
}

/// A service that waits forgets its reasons and nothing else; one that stops, or whose health
/// changes, keeps everything but its status.
pub proof fn law_wait_forgets_the_reasons(
    prev: ConfigActor,
    name: String,
    status: ServiceStatus,
    now: i64,
    next: ConfigActor,
    reply: ConfigReply,
    before: Seq<Deed>,
    after: Seq<Deed>,
)
    requires
        handled(
            prev,
            ConfigCommand::SetServiceStatus { service_name: name, status },
            now,
            next,
            reply,
            before,
            after,
        ),
        prev.services@.contains_key(name@),
        status == ServiceStatus::Waiting || status == ServiceStatus::Stopping || status
            == ServiceStatus::Healthy || status == ServiceStatus::Unhealthy,
    ensures
        ({
            let was = prev.services@[name@];
            let got = next.services@[name@];
            &&& got.pid == was.pid
            &&& got.started_at == was.started_at
            &&& got.stopped_at == was.stopped_at
            &&& got.exit_code == was.exit_code
            &&& got.signal == was.signal
            &&& got.was_healthy == was.was_healthy
            &&& got.health_check_failures == was.health_check_failures
            &&& status == ServiceStatus::Waiting ==> got.fail_reason is None && got.skip_reason is None
            &&& status != ServiceStatus::Waiting ==> got.fail_reason == was.fail_reason
                && got.skip_reason == was.skip_reason
        }),
{
}

/// A reason that comes with a status stands, unless the service waits or starts; without one the
/// reason of before stays. In all else a status with reasons does what the status alone does.
pub proof fn law_reasons_come_with_a_status(
    prev: ConfigActor,
    name: String,
    status: ServiceStatus,
    skip_reason: Option<String>,
    fail_reason: Option<String>,
    now: i64,
    next: ConfigActor,
    reply: ConfigReply,
    before: Seq<Deed>,
    after: Seq<Deed>,
    plain: ConfigActor,
    plain_reply: ConfigReply,
    plain_after: Seq<Deed>,
)
    requires
        handled(
            prev,
            ConfigCommand::SetServiceStatusWithReason {
                service_name: name,
                status,
                skip_reason,
                fail_reason,
            },
            now,
            next,
            reply,
            before,
            after,
        ),
        handled(
            prev,
            ConfigCommand::SetServiceStatus { service_name: name, status },
            now,
            plain,
            plain_reply,
            before,
            plain_after,
        ),
        prev.services@.contains_key(name@),
    ensures
        ({
            let was = prev.services@[name@];
            let got = next.services@[name@];
            let fresh = status == ServiceStatus::Waiting || status == ServiceStatus::Starting;
            &&& fresh ==> got.skip_reason is None && got.fail_reason is None
            &&& !fresh && skip_reason is Some ==> got.skip_reason == skip_reason
            &&& !fresh && skip_reason is None ==> got.skip_reason == was.skip_reason
            &&& !fresh && fail_reason is Some ==> got.fail_reason == fail_reason
            &&& !fresh && fail_reason is None ==> got.fail_reason == was.fail_reason
            &&& plain.services@[name@] == (ServiceState {
                skip_reason: plain.services@[name@].skip_reason,
                fail_reason: plain.services@[name@].fail_reason,
                ..got
            })
        }),
        reply matches ConfigReply::Done(Ok(_)),
        after[before.len() as int] == Deed::NotifyWatchers(name@, status),
        after[before.len() as int + 1] == Deed::NotifyStatus(name@, status),
        after.last() == Deed::SaveState,
{
}

/// A command on a service that is not known is refused with its name, changes nothing, and nobody
/// is told.
pub proof fn law_unknown_service_is_refused(
    prev: ConfigActor,
    cmd: ConfigCommand,
    name: String,
    now: i64,
    next: ConfigActor,
    reply: ConfigReply,
    before: Seq<Deed>,
    after: Seq<Deed>,
)
    requires
        handled(prev, cmd, now, next, reply, before, after),
        !prev.services@.contains_key(name@),
        match cmd {
            ConfigCommand::SetServiceStatus { service_name, .. } => service_name == name,
            ConfigCommand::SetServiceStatusWithReason { service_name, .. } => service_name == name,
            ConfigCommand::SetServicePid { service_name, .. } => service_name == name,
            ConfigCommand::RecordProcessExit { service_name, .. } => service_name == name,
            ConfigCommand::MarkServiceInitialized { service_name } => service_name == name,
            ConfigCommand::IncrementRestartCount { service_name } => service_name == name,
            _ => false,
        },
    ensures
        reply matches ConfigReply::Done(Err(DaemonError::ServiceNotFound(n))) && n@ == name@,
        after == before,
        next.services == prev.services,
        next.last_ready == prev.last_ready,
        next.last_quiescent == prev.last_quiescent,
        !(cmd is RecordProcessExit) ==> next == prev,
{
}

/// A service that is stopped, exited, failed, was killed or was skipped can be claimed, and waits
/// from then on; one that waits can be claimed as it is; no other can, and none that is not known.
pub proof fn law_idle_service_is_claimed(
    prev: ConfigActor,
    name: String,
    now: i64,
    next: ConfigActor,
    reply: ConfigReply,
    before: Seq<Deed>,
    after: Seq<Deed>,
)
    requires
        handled(
            prev,
            ConfigCommand::ClaimServiceStart { service_name: name },
            now,
            next,
            reply,
            before,
            after,
        ),
    ensures
        !prev.services@.contains_key(name@) ==> reply == ConfigReply::Flag(false) && next == prev
            && after == before,
        prev.services@.contains_key(name@) ==> {
            let was = prev.services@[name@];
            let got = next.services@[name@];
            let idle = was.status == ServiceStatus::Stopped || was.status == ServiceStatus::Exited
                || was.status == ServiceStatus::Failed || was.status == ServiceStatus::Killed
                || was.status == ServiceStatus::Skipped;
            &&& reply == ConfigReply::Flag(idle || was.status == ServiceStatus::Waiting)
            &&& idle ==> got.status == ServiceStatus::Waiting && got.skip_reason is None
                && got.fail_reason is None && got.exit_code == was.exit_code
            &&& idle ==> added(before, after, Deed::NotifyStatus(name@, ServiceStatus::Waiting))
            &&& !idle ==> next == prev && after == before
        },
{
    if prev.services@.contains_key(name@) && !prev.services@[name@].status.active() {
        assert(after[before.len() as int + 1] == Deed::NotifyStatus(name@, ServiceStatus::Waiting));
    }
}

/// A process that is set is the process of the service, and its status stays. Once its exit is
/// recorded, the service has no process, and the exit code and the signal are those recorded.
pub proof fn law_process_is_noted_and_exit_recorded(
    prev: ConfigActor,
    name: String,
    pid: Option<u32>,
    started_at: Option<i64>,
    exit_code: Option<i32>,
    signal: Option<i32>,
    now: i64,
    running: ConfigActor,
    done: ConfigActor,
    reply1: ConfigReply,
    reply2: ConfigReply,
    d0: Seq<Deed>,
    d1: Seq<Deed>,
    d2: Seq<Deed>,
)
    requires
        prev.services@.contains_key(name@),
        handled(
            prev,
            ConfigCommand::SetServicePid { service_name: name, pid, started_at },
            now,
            running,
            reply1,
            d0,
            d1,
        ),
        handled(
            running,
            ConfigCommand::RecordProcessExit { service_name: name, exit_code, signal },
            now,
            done,
            reply2,
            d1,
            d2,
        ),
    ensures
        running.services@[name@] == (ServiceState { pid, started_at, ..prev.services@[name@] }),
        done.services@[name@] == (ServiceState {
            pid: None,
            exit_code,
            signal,
            ..running.services@[name@]
        }),
        !done.processes@.contains_key(name@),
        running.processes == prev.processes,
        d2 == d0.push(Deed::SaveState).push(Deed::SaveState),
        reply1 matches ConfigReply::Done(Ok(_)),
        reply2 matches ConfigReply::Done(Ok(_)),
{
}

/// A check that passes makes a running or unhealthy service healthy and forgets the failures; one
/// that fails counts, and makes the service unhealthy once as many failed as are allowed. The
/// answer says what changed, and others are told, and the states written, only if it changed.
pub proof fn law_check_changes_health(
    prev: ConfigActor,
    name: String,
    passed: bool,
    retries: u32,
    now: i64,
    next: ConfigActor,
    reply: ConfigReply,
    before: Seq<Deed>,
    after: Seq<Deed>,
)
    requires
        handled(
            prev,
            ConfigCommand::UpdateHealthCheck { service_name: name, passed, retries },
            now,
            next,
            reply,
            before,
            after,
        ),
    ensures
        !prev.services@.contains_key(name@) ==> next == prev && after == before && (
        reply matches ConfigReply::Health(Err(DaemonError::ServiceNotFound(n))) && n@ == name@),
        prev.services@.contains_key(name@) ==> {
            let was = prev.services@[name@];
            let got = next.services@[name@];
            &&& passed ==> got.health_check_failures == 0
            &&& passed && (was.status == ServiceStatus::Running || was.status
                == ServiceStatus::Unhealthy) ==> got.status == ServiceStatus::Healthy
                && got.was_healthy
            &&& passed && was.status != ServiceStatus::Running && was.status
                != ServiceStatus::Unhealthy ==> got.status == was.status && got.was_healthy
                == was.was_healthy
            &&& !passed && was.health_check_failures < u32::MAX ==> got.health_check_failures
                == was.health_check_failures + 1 && got.was_healthy == was.was_healthy
            &&& !passed && was.health_check_failures < u32::MAX && was.health_check_failures + 1
                >= retries ==> got.status == ServiceStatus::Unhealthy
            &&& !passed && was.health_check_failures < u32::MAX && was.health_check_failures + 1
                < retries ==> got.status == was.status
            &&& got == (ServiceState {
                status: got.status,
                health_check_failures: got.health_check_failures,
                was_healthy: got.was_healthy,
                ..was
            })
            &&& reply matches ConfigReply::Health(Ok(u))
            &&& u.previous_status == was.status
            &&& u.new_status == got.status
            &&& u.failures == got.health_check_failures
            &&& got.status == was.status ==> after == before
            &&& got.status != was.status ==> {
                &&& after[before.len() as int] == Deed::NotifyWatchers(name@, got.status)
                &&& after[before.len() as int + 1] == Deed::NotifyStatus(name@, got.status)
                &&& after.last() == Deed::SaveState
            }
        },
{
}

/// What is marked as initialized is, and a counted restart counts once; nothing else changes, and
/// the states are written.
pub proof fn law_marks_and_counts(
    prev: ConfigActor,
    name: String,
    now: i64,
    marked: ConfigActor,
    counted: ConfigActor,
    r1: ConfigReply,
    r2: ConfigReply,
    d0: Seq<Deed>,
    d1: Seq<Deed>,
    d2: Seq<Deed>,
)
    requires
        prev.services@.contains_key(name@),
        prev.services@[name@].restart_count < u32::MAX,
        handled(
            prev,
            ConfigCommand::MarkServiceInitialized { service_name: name },
            now,
            marked,
            r1,
            d0,
            d1,
        ),
        handled(
            marked,
            ConfigCommand::IncrementRestartCount { service_name: name },
            now,
            counted,
            r2,
            d1,
            d2,
        ),
    ensures
        marked.services@[name@] == (ServiceState { initialized: true, ..prev.services@[name@] }),
        counted.services@[name@].restart_count == prev.services@[name@].restart_count + 1,
        counted.services@[name@] == (ServiceState {
            restart_count: counted.services@[name@].restart_count,
            ..marked.services@[name@]
        }),
        d2 == d0.push(Deed::SaveState).push(Deed::SaveState),
{
}

/// What was computed for a service is what the next start of it is told, with its environment,
/// its directory and the variables of its file; nothing else of the state changes.
pub proof fn law_computed_config_is_told_to_the_start(
    prev: ConfigActor,
    name: String,
    config: Box<ServiceConfig>,
    computed_env: NameMap<String>,
    working_dir: String,
    env_file_vars: NameMap<String>,
    now: i64,
    next: ConfigActor,
    r1: ConfigReply,
    d0: Seq<Deed>,
    d1: Seq<Deed>,
    same: ConfigActor,
    r2: ConfigReply,
    d2: Seq<Deed>,
)
    requires
        handled(
            prev,
            ConfigCommand::StoreResolvedConfig {
                service_name: name,
                config,
                computed_env,
                working_dir,
                env_file_vars,
            },
            now,
            next,
            r1,
            d0,
            d1,
        ),
        handled(
            next,
            ConfigCommand::GetServiceContext { service_name: name },
            now,
            same,
            r2,
            d1,
            d2,
        ),
        prev.config.services@.contains_key(name@),
        prev.services@.contains_key(name@),
    ensures
        d2 == d0,
        same == next,
        r2 matches ConfigReply::Context(Some(c)) && {
            &&& *c.service_config == prev.config.services@[name@]
            &&& c.resolved_config matches Some(rc)
            &&& *rc == *config
            &&& *c.env == computed_env
            &&& *c.working_dir == working_dir
            &&& *c.env_file_vars == env_file_vars
            &&& *c.config_dir == prev.config_dir
            &&& *c.state_dir == prev.state_dir
        },
        next.services@[name@] == (ServiceState {
            computed_env,
            working_dir,
            env_file_vars,
            ..prev.services@[name@]
        }),
{
}

/// A process that is stored is handed out once.
pub proof fn law_process_is_handed_out_once(
    prev: ConfigActor,
    name: String,
    process: ProcessHandle,
    now: i64,
    stored: ConfigActor,
    gone: ConfigActor,
    again: ConfigActor,
    r1: ConfigReply,
    r2: ConfigReply,
    r3: ConfigReply,
    d0: Seq<Deed>,
    d1: Seq<Deed>,
    d2: Seq<Deed>,
    d3: Seq<Deed>,
)
    requires
        handled(
            prev,
            ConfigCommand::StoreProcessHandle { service_name: name, process },
            now,
            stored,
            r1,
            d0,
            d1,
        ),
        handled(
            stored,
            ConfigCommand::RemoveProcessHandle { service_name: name },
            now,
            gone,
            r2,
            d1,
            d2,
        ),
        handled(
            gone,
            ConfigCommand::RemoveProcessHandle { service_name: name },
            now,
            again,
            r3,
            d2,
            d3,
        ),
    ensures
        r2 == ConfigReply::Process(Some(process)),
        r3 == ConfigReply::Process(None),
        gone.services == prev.services,
        gone.processes@ == prev.processes@.remove(name@),
        d3 == d0,
{
    assert(prev.processes@.insert(name@, process).remove(name@) =~= prev.processes@.remove(name@));
}

/// The tasks that read the output of a process are handed out once; the process stays.
pub proof fn law_output_tasks_are_handed_out_once(
    prev: ConfigActor,
    name: String,
    process: ProcessHandle,
    now: i64,
    stored: ConfigActor,
    taken: ConfigActor,
    again: ConfigActor,
    r1: ConfigReply,
    r2: ConfigReply,
    r3: ConfigReply,
    d0: Seq<Deed>,
    d1: Seq<Deed>,
    d2: Seq<Deed>,
    d3: Seq<Deed>,
)
    requires
        handled(
            prev,
            ConfigCommand::StoreProcessHandle { service_name: name, process },
            now,
            stored,
            r1,
            d0,
            d1,
        ),
        handled(
            stored,
            ConfigCommand::TakeOutputTasks { service_name: name },
            now,
            taken,
            r2,
            d1,
            d2,
        ),
        handled(
            taken,
            ConfigCommand::TakeOutputTasks { service_name: name },
            now,
            again,
            r3,
            d2,
            d3,
        ),
    ensures
        r2 == ConfigReply::OutputTasks(process.stdout_task, process.stderr_task),
        r3 == ConfigReply::OutputTasks(None, None),
        taken.processes@.contains_key(name@),
        taken.processes@[name@].process == process.process,
        d3 == d0,
{
}

/// A service has one task of each kind: a new one ends the one before it, and a cancelled one is
/// ended and forgotten. The other kind is left alone.
pub proof fn law_one_task_of_each_kind(
    prev: ConfigActor,
    name: String,
    kind: TaskHandleType,
    first: u64,
    second: u64,
    now: i64,
    s1: ConfigActor,
    s2: ConfigActor,
    s3: ConfigActor,
    s4: ConfigActor,
    r1: ConfigReply,
    r2: ConfigReply,
    r3: ConfigReply,
    r4: ConfigReply,
    d0: Seq<Deed>,
    d1: Seq<Deed>,
    d2: Seq<Deed>,
    d3: Seq<Deed>,
    d4: Seq<Deed>,
)
    requires
        handled(
            prev,
            ConfigCommand::StoreTaskHandle {
                service_name: name,
                handle_type: kind,
                handle: first,
            },
            now,
            s1,
            r1,
            d0,
            d1,
        ),
        handled(
            s1,
            ConfigCommand::StoreTaskHandle {
                service_name: name,
                handle_type: kind,
                handle: second,
            },
            now,
            s2,
            r2,
            d1,
            d2,
        ),
        handled(
            s2,
            ConfigCommand::CancelTaskHandle { service_name: name, handle_type: kind },
            now,
            s3,
            r3,
            d2,
            d3,
        ),
        handled(
            s3,
            ConfigCommand::CancelTaskHandle { service_name: name, handle_type: kind },
            now,
            s4,
            r4,
            d3,
            d4,
        ),
    ensures
        d2 == d1.push(Deed::Abort(first)),
        d3 == d2.push(Deed::Abort(second)),
        d4 == d3,
        kind == TaskHandleType::HealthCheck ==> s4.watchers == prev.watchers
            && s2.health_checks@[name@] == second && !s3.health_checks@.contains_key(name@),
        kind == TaskHandleType::FileWatcher ==> s4.health_checks == prev.health_checks
            && s2.watchers@[name@] == second && !s3.watchers@.contains_key(name@),
        s4.services == prev.services,
{
    assert(d1 + seq![Deed::Abort(first)] =~= d1.push(Deed::Abort(first)));
    assert(d2 + seq![Deed::Abort(second)] =~= d2.push(Deed::Abort(second)));
    assert(d3 + Seq::<Deed>::empty() =~= d3);
}

/// Once the snapshot is removed, the configuration does not count as restored, and every service
/// is computed anew; if it could not be removed, nothing changes. The answer says which.
pub proof fn law_cleared_snapshot_is_forgotten(
    prev: ConfigActor,
    cleared: Result<(), DaemonError>,
    now: i64,
    next: ConfigActor,
    r1: ConfigReply,
    d0: Seq<Deed>,
    d1: Seq<Deed>,
    same: ConfigActor,
    r2: ConfigReply,
    d2: Seq<Deed>,
)
    requires
        handled(prev, ConfigCommand::ClearSnapshot { cleared }, now, next, r1, d0, d1),
        handled(next, ConfigCommand::IsRestoredFromSnapshot, now, same, r2, d1, d2),
    ensures
        cleared is Ok ==> r2 == ConfigReply::Flag(false) && !next.snapshot_taken
            && next.resolved_configs.keys().len() == 0 && next.services == prev.services
            && next.sys_env == prev.sys_env,
        cleared is Err ==> r2 == ConfigReply::Flag(prev.restored_from_snapshot) && next == prev,
        r1 matches ConfigReply::Done(r) && r == cleared,
        d2 == d0,
{
}

/// An event goes to a service that has a channel, and is dropped without one.
pub proof fn law_event_needs_a_channel(
    prev: ConfigActor,
    name: String,
    event: ServiceEvent,
    now: i64,
    open: ConfigActor,
    sent: ConfigActor,
    closed: ConfigActor,
    lost: ConfigActor,
    r1: ConfigReply,
    r2: ConfigReply,
    r3: ConfigReply,
    r4: ConfigReply,
    d0: Seq<Deed>,
    d1: Seq<Deed>,
    d2: Seq<Deed>,
    d3: Seq<Deed>,
    d4: Seq<Deed>,
)
    requires
        handled(
            prev,
            ConfigCommand::CreateEventChannel { service_name: name },
            now,
            open,
            r1,
            d0,
            d1,
        ),
        handled(
            open,
            ConfigCommand::EmitEvent { service_name: name, event },
            now,
            sent,
            r2,
            d1,
            d2,
        ),
        handled(
            sent,
            ConfigCommand::RemoveEventChannel { service_name: name },
            now,
            closed,
            r3,
            d2,
            d3,
        ),
        handled(
            closed,
            ConfigCommand::EmitEvent { service_name: name, event },
            now,
            lost,
            r4,
            d3,
            d4,
        ),
    ensures
        d1 == d0,
        d2 == d0.push(Deed::Send(name@, event)),
        d4 == d2,
        lost.services == prev.services,
        !lost.event_senders@.contains_key(name@),
{
}

/// Asking for all event channels opens those that are missing: each service has one then, the
/// names are those of services that had none, and asking again opens none.
pub proof fn law_every_service_gets_a_channel(
    prev: ConfigActor,
    now: i64,
    next: ConfigActor,
    reply: ConfigReply,
    before: Seq<Deed>,
    after: Seq<Deed>,
    a: Seq<char>,
)
    requires
        handled(prev, ConfigCommand::GetAllEventReceivers, now, next, reply, before, after),
        prev.services.keys().contains(a),
    ensures
        next.event_senders@.contains_key(a),
        after == before,
        reply matches ConfigReply::Names(l) && (views(l@).contains(a)
            <==> !prev.event_senders@.contains_key(a)),
        next.services == prev.services,
{
    if let ConfigReply::Names(l) = reply {
        lemma_unheard(
            prev.services.keys(),
            prev.event_senders@,
            prev.services.keys().len(),
            prev.services.keys().index_of(a),
        );
    }
}

/// A service is among those without a channel exactly if it has none.
proof fn lemma_unheard(keys: Seq<Seq<char>>, channels: Map<Seq<char>, ()>, n: nat, i: int)
    requires
        n <= keys.len(),
        0 <= i < n,
    ensures
        unheard_names(keys, channels, n).contains(keys[i]) <==> !channels.contains_key(keys[i]),
    decreases n,
{
    let list = unheard_names(keys, channels, n);
    let rest = unheard_names(keys, channels, (n - 1) as nat);
    if i < n - 1 {
        lemma_unheard(keys, channels, (n - 1) as nat, i);
        if rest.contains(keys[i]) {
            let j = rest.index_of(keys[i]);
            assert(list[j] == keys[i]);
        }
        if list.contains(keys[i]) && !rest.contains(keys[i]) {
            let j = list.index_of(keys[i]);
            if j < rest.len() {
                assert(rest[j] == keys[i]);
            }
            assert(list == rest.push(keys[n - 1]));
            assert(keys[n - 1] == keys[i]);
        }
    } else {
        if channels.contains_key(keys[i]) {
            lemma_heard_absent(keys, channels, n, keys[i]);
        } else {
            assert(list == rest.push(keys[i]));
            assert(list[list.len() - 1] == keys[i]);
        }
    }
}

/// A service with a channel is not among those without.
proof fn lemma_heard_absent(
    keys: Seq<Seq<char>>,
    channels: Map<Seq<char>, ()>,
    n: nat,
    a: Seq<char>,
)
    requires
        n <= keys.len(),
        channels.contains_key(a),
    ensures
        !unheard_names(keys, channels, n).contains(a),
    decreases n,
{
    if n > 0 {
        lemma_heard_absent(keys, channels, (n - 1) as nat, a);
        let list = unheard_names(keys, channels, n);
        let rest = unheard_names(keys, channels, (n - 1) as nat);
        if list.contains(a) {
            let j = list.index_of(a);
            if j < rest.len() {
                assert(rest[j] == a);
            }
        }
    }
}

/// New tasks that handle events end all those before them.
pub proof fn law_new_handlers_end_the_old(
    prev: ConfigActor,
    handler: u64,
    forwarders: Vec<u64>,
    now: i64,
    next: ConfigActor,
    reply: ConfigReply,
    before: Seq<Deed>,
    after: Seq<Deed>,
    k: int,
)
    requires
        handled(
            prev,
            ConfigCommand::StoreEventHandlerTasks { handler, forwarders },
            now,
            next,
            reply,
            before,
            after,
        ),
        0 <= k < prev.event_forwarder_tasks@.len(),
    ensures
        prev.event_handler_task matches Some(t) ==> added(before, after, Deed::Abort(t)),
        added(before, after, Deed::Abort(prev.event_forwarder_tasks@[k])),
        next.event_handler_task == Some(handler),
        next.event_forwarder_tasks == forwarders,
        next.services == prev.services,
{
    let n = before.len() as int;
    let m = n + if prev.event_handler_task is Some {
        1int
    } else {
        0int
    };
    if let Some(t) = prev.event_handler_task {
        assert(after[n] == Deed::Abort(t));
    }
    assert(after[m + k] == Deed::Abort(prev.event_forwarder_tasks@[k]));
}

/// Variables that are merged in replace those of the same name and leave the others; every service
/// is computed anew, and the snapshot is written again if there is one.
pub proof fn law_merged_variables_win(
    prev: ConfigActor,
    overrides: NameMap<String>,
    now: i64,
    next: ConfigActor,
    reply: ConfigReply,
    before: Seq<Deed>,
    after: Seq<Deed>,
    a: Seq<char>,
)
    requires
        handled(
            prev,
            ConfigCommand::MergeSysEnv { overrides },
            now,
            next,
            reply,
            before,
            after,
        ),
    ensures
        overrides@.contains_key(a) ==> next.sys_env@.contains_key(a) && next.sys_env@[a]
            == overrides@[a],
        !overrides@.contains_key(a) ==> (next.sys_env@.contains_key(a)
            <==> prev.sys_env@.contains_key(a)),
        !overrides@.contains_key(a) && prev.sys_env@.contains_key(a) ==> next.sys_env@[a]
            == prev.sys_env@[a],
        next.resolved_configs.keys().len() == 0,
        next.services == prev.services,
        prev.snapshot_taken ==> after == before.push(Deed::SaveSnapshot),
        !prev.snapshot_taken ==> after == before,
{
}

/// Of a service the answers agree: it counts as running, and is among the running ones, exactly
/// if it is running, healthy or unhealthy; all are stopped only if none got.
pub proof fn law_answers_agree_on_running(
    actor: ConfigActor,
    name: String,
    now: i64,
    s1: ConfigActor,
    s2: ConfigActor,
    s3: ConfigActor,
    s4: ConfigActor,
    one: ConfigReply,
    names: ConfigReply,
    none: ConfigReply,
    state: ConfigReply,
    d: Seq<Deed>,
    d1: Seq<Deed>,
    d2: Seq<Deed>,
    d3: Seq<Deed>,
    d4: Seq<Deed>,
)
    requires
        handled(
            actor,
            ConfigCommand::IsServiceRunning { service_name: name },
            now,
            s1,
            one,
            d,
            d1,
        ),
        handled(actor, ConfigCommand::GetRunningServices, now, s2, names, d, d2),
        handled(actor, ConfigCommand::AllServicesStopped, now, s3, none, d, d3),
        handled(
            actor,
            ConfigCommand::GetServiceState { service_name: name },
            now,
            s4,
            state,
            d,
            d4,
        ),
        actor.services.keys().contains(name@),
        actor.services@.contains_key(name@),
        actor.services@[name@] == actor.services.values()[actor.services.keys().index_of(name@)],
        actor.services.keys().no_duplicates(),
    ensures
        ({
            let status = actor.services@[name@].status;
            let runs = status == ServiceStatus::Running || status == ServiceStatus::Healthy
                || status == ServiceStatus::Unhealthy;
            &&& one == ConfigReply::Flag(runs)
            &&& names matches ConfigReply::Names(l)
            &&& views(l@).contains(name@) <==> runs
            &&& none matches ConfigReply::Flag(stopped)
            &&& runs ==> !stopped
            &&& state matches ConfigReply::State(Some(s))
            &&& *s == actor.services@[name@]
        }),
        s1 == actor && s2 == actor && s3 == actor && s4 == actor,
        d1 == d && d2 == d && d3 == d && d4 == d,
{
    let keys = actor.services.keys();
    lemma_running(actor.services, keys.len(), keys.index_of(name@));
}

/// A service is among the running ones exactly if it runs.
proof fn lemma_running(services: NameMap<ServiceState>, n: nat, i: int)
    requires
        n <= services.keys().len(),
        0 <= i < services.keys().len(),
        services.keys().no_duplicates(),
    ensures
        running_names(services, n).contains(services.keys()[i]) <==> i < n
            && services.values()[i].status.running(),
    decreases n,
{
    if n > 0 {
        lemma_running(services, (n - 1) as nat, i);
        let list = running_names(services, n);
        let rest = running_names(services, (n - 1) as nat);
        let a = services.keys()[i];
        if list.contains(a) && !rest.contains(a) {
            let j = list.index_of(a);
            if j < rest.len() {
                assert(rest[j] == a);
            }
            assert(list == rest.push(services.keys()[n - 1]));
            assert(services.keys()[n - 1] == a);
        }
        if rest.contains(a) {
            assert(list[rest.index_of(a)] == a);
        }
        if i == n - 1 && services.values()[i].status.running() {
            assert(list[list.len() - 1] == a);
        }
    }
}

/// Where all services are ready and no start is in progress, asking to be told again tells of
/// readiness; where they are not ready, or a start is in progress, it does not.
pub proof fn law_recheck_tells_what_holds(
    prev: ConfigActor,
    ready: bool,
    now: i64,
    next: ConfigActor,
    reply: ConfigReply,
    before: Seq<Deed>,
    after: Seq<Deed>,
)
    requires
        handled(prev, ConfigCommand::RecheckReadyQuiescent, now, next, reply, before, after),
        call_ensures(ConfigActor::compute_ready, (&prev,), ready),
    ensures
        ready && !prev.startup_in_progress ==> added(before, after, Deed::NotifyReady)
            && next.last_ready,
        !ready || prev.startup_in_progress ==> !added(before, after, Deed::NotifyReady)
            && !next.last_ready,
        next.services == prev.services,
        next.startup_in_progress == prev.startup_in_progress,
{
    if ready && !prev.startup_in_progress {
        assert(after[before.len() as int] == Deed::NotifyReady);
    }
}

/// The end of a start tells of readiness that holds and was not told; the begin of one tells
/// nothing.
pub proof fn law_end_of_start_tells_readiness(
    prev: ConfigActor,
    in_progress: bool,
    ready: bool,
    now: i64,
    next: ConfigActor,
    reply: ConfigReply,
    before: Seq<Deed>,
    after: Seq<Deed>,
)
    requires
        handled(
            prev,
            ConfigCommand::SetStartupInProgress { in_progress },
            now,
            next,
            reply,
            before,
            after,
        ),
        call_ensures(ConfigActor::compute_ready, (&prev,), ready),
    ensures
        next.startup_in_progress == in_progress,
        in_progress ==> after == before,
        !in_progress && ready && !prev.last_ready ==> added(before, after, Deed::NotifyReady),
        !ready || prev.last_ready ==> !added(before, after, Deed::NotifyReady),
        next.services == prev.services,
{
    if !in_progress && ready && !prev.last_ready {
        assert(after[before.len() as int] == Deed::NotifyReady);
    }
}

/// A status that makes all services ready has that told, once; a service that starts, runs or
/// stops is never followed by the news that nothing more will change.
pub proof fn law_status_tells_readiness(
    prev: ConfigActor,
    name: String,
    status: ServiceStatus,
    ready: bool,
    now: i64,
    next: ConfigActor,
    reply: ConfigReply,
    before: Seq<Deed>,
    after: Seq<Deed>,
)
    requires
        handled(
            prev,
            ConfigCommand::SetServiceStatus { service_name: name, status },
            now,
            next,
            reply,
            before,
            after,
        ),
        call_ensures(ConfigActor::compute_ready, (&next,), ready),
        prev.services@.contains_key(name@),
    ensures
        added(before, after, Deed::NotifyReady) <==> ready && !prev.startup_in_progress && (
        !prev.last_ready || status == ServiceStatus::Starting),
        status == ServiceStatus::Starting || status == ServiceStatus::Running || status
            == ServiceStatus::Healthy || status == ServiceStatus::Unhealthy || status
            == ServiceStatus::Stopping ==> !added(before, after, Deed::NotifyQuiescent)
            && !next.last_quiescent,
{
    let at = before.len() as int + 2 + if next.unhandled(name@) {
        1int
    } else {
        0int
    };
    if prev.tells_ready(next.picture(), status) {
        assert(after[at] == Deed::NotifyReady);
    }
}

/// Others are told of a failure exactly if a service failed, was killed, or exited with a code
/// other than 0, is not started again, and no service asks for its failure or its end.
pub proof fn law_unhandled_failure_is_told(
    prev: ConfigActor,
    name: String,
    text: &str,
    status: ServiceStatus,
    handled_by_others: bool,
    now: i64,
    next: ConfigActor,
    reply: ConfigReply,
    before: Seq<Deed>,
    after: Seq<Deed>,
)
    requires
        handled(
            prev,
            ConfigCommand::SetServiceStatus { service_name: name, status },
            now,
            next,
            reply,
            before,
            after,
        ),
        text@ == name@,
        call_ensures(is_failure_handled, (text, &prev.config.services), handled_by_others),
        prev.services@.contains_key(name@),
    ensures
        ({
            let code = prev.services@[name@].exit_code;
            let told = added(before, after, Deed::NotifyFailure(name@, code));
            &&& status == ServiceStatus::Failed || status == ServiceStatus::Killed ==> (told <==> (
            !handled_by_others && !next.picture().restarts(name@, code)))
            &&& status == ServiceStatus::Exited && (code matches Some(c) && c != 0) ==> (told <==> (
            !handled_by_others && !next.picture().restarts(name@, code)))
            &&& status == ServiceStatus::Exited && (code is None || code == Some(0i32)) ==> !told
            &&& status != ServiceStatus::Failed && status != ServiceStatus::Killed && status
                != ServiceStatus::Exited ==> forall|c: Option<i32>|
                !#[trigger] added(before, after, Deed::NotifyFailure(name@, c))
        }),
{
    if next.unhandled(name@) {
        assert(after[before.len() as int + 2] == Deed::NotifyFailure(
            name@,
            next.services@[name@].exit_code,
        ));
    }
}

/// Each question is answered with what it asks for.
pub proof fn law_questions_are_answered(
    actor: ConfigActor,
    cmd: ConfigCommand,
    now: i64,
    same: ConfigActor,
    reply: ConfigReply,
    d0: Seq<Deed>,
    d1: Seq<Deed>,
)
    requires
        handled(actor, cmd, now, same, reply, d0, d1),
    ensures
        cmd is GetConfigDir ==> (reply matches ConfigReply::Text(t) && *t == actor.config_dir),
        cmd is GetStateDir ==> (reply matches ConfigReply::Text(t) && *t == actor.state_dir),
        cmd is GetConfigHash ==> (reply matches ConfigReply::Text(t) && *t == actor.config_hash),
        cmd is GetConfigPath ==> (reply matches ConfigReply::Text(t) && *t == actor.config_path),
        cmd is GetConfig ==> (reply matches ConfigReply::Config(c) && *c == actor.config),
        cmd is GetLogConfig ==> (reply matches ConfigReply::LogConfig(c) && *c == actor.log_config),
        cmd is GetSysEnv ==> (reply matches ConfigReply::Env(e) && *e == actor.sys_env),
        cmd is IsConfigInitialized ==> reply == ConfigReply::Flag(actor.initialized),
        cmd is IsRestoredFromSnapshot ==> reply == ConfigReply::Flag(actor.restored_from_snapshot),
        cmd is HasEventHandler ==> reply == ConfigReply::Flag(actor.event_handler_spawned),
        cmd is GetDiagnosticCounts ==> (reply matches ConfigReply::Counts(c) && c.process_handles
            == actor.processes.keys().len() && c.health_checks == actor.health_checks.keys().len()
            && c.file_watchers == actor.watchers.keys().len() && c.event_senders
            == actor.event_senders.keys().len()),
        cmd matches ConfigCommand::GetLogs { lines } ==> reply == ConfigReply::ReadLogs(
            LogRead::Tail { lines },
        ),
        cmd matches ConfigCommand::GetLogsBounded { lines, max_bytes } ==> reply
            == ConfigReply::ReadLogs(LogRead::TailBounded { lines, max_bytes }),
        cmd matches ConfigCommand::GetLogsPaginated { offset, limit } ==> reply
            == ConfigReply::ReadLogs(LogRead::Page { offset, limit }),
        cmd matches ConfigCommand::IsServiceInitialized { service_name } ==> reply
            == ConfigReply::Flag(
            actor.services@.contains_key(service_name@)
                && actor.services@[service_name@].initialized,
        ),
        cmd matches ConfigCommand::GetServiceConfig { service_name } ==> (
        reply matches ConfigReply::ServiceConfig(c) && (c is Some
            <==> actor.config.services@.contains_key(service_name@)) && (c matches Some(x) ==> *x
            == actor.config.services@[service_name@])),
        cmd is GetDefaultInheritEnv ==> (reply matches ConfigReply::Setting(s) && (
        match actor.config.kepler {
            Some(k) => s == k.default_inherit_env,
            None => s is None,
        })),
        cmd is GetConfigDir || cmd is GetStateDir || cmd is GetConfigHash || cmd is GetConfigPath
            || cmd is GetConfig || cmd is GetLogConfig || cmd is GetSysEnv || cmd is GetLogs
            || cmd is GetDiagnosticCounts ==> same == actor && d1 == d0,
{
}

/// A reason that is set is the reason of the service, and nothing else of it changes; nobody is
/// told.
pub proof fn law_reasons_are_set(
    prev: ConfigActor,
    name: String,
    skip: String,
    fail: String,
    now: i64,
    skipped: ConfigActor,
    failed: ConfigActor,
    r1: ConfigReply,
    r2: ConfigReply,
    d0: Seq<Deed>,
    d1: Seq<Deed>,
    d2: Seq<Deed>,
)
    requires
        prev.services@.contains_key(name@),
        handled(
            prev,
            ConfigCommand::SetSkipReason { service_name: name, reason: skip },
            now,
            skipped,
            r1,
            d0,
            d1,
        ),
        handled(
            skipped,
            ConfigCommand::SetFailReason { service_name: name, reason: fail },
            now,
            failed,
            r2,
            d1,
            d2,
        ),
    ensures
        failed.services@[name@] == (ServiceState {
            skip_reason: Some(skip),
            fail_reason: Some(fail),
            ..prev.services@[name@]
        }),
        d2 == d0,
{
}

/// Logs are removed by the name or the beginning that is given; a shutdown writes the states, and
/// so does the mark that a configuration is initialized. A handler that was started is noted.
pub proof fn law_other_commands(
    prev: ConfigActor,
    cmd: ConfigCommand,
    now: i64,
    next: ConfigActor,
    reply: ConfigReply,
    before: Seq<Deed>,
    after: Seq<Deed>,
)
    requires
        handled(prev, cmd, now, next, reply, before, after),
    ensures
        cmd matches ConfigCommand::ClearServiceLogs { service_name } ==> next == prev && after
            == before.push(Deed::ClearLogs(service_name@)),
        cmd matches ConfigCommand::ClearServiceLogsPrefix { prefix } ==> next == prev && after
            == before.push(Deed::ClearLogsPrefix(prefix@)),
        cmd is Shutdown ==> next == prev && after == before.push(Deed::SaveState),
        cmd is MarkConfigInitialized ==> next.initialized && next.services == prev.services && after
            == before.push(Deed::SaveState) && (reply matches ConfigReply::Done(Ok(_))),
        cmd is SetEventHandlerSpawned ==> next.event_handler_spawned && after == before
            && next.services == prev.services,
{
}

/// A configuration is shut down by the command to do so and by no other.
pub proof fn law_only_shutdown_shuts_down(
    actor: &mut ConfigActor,
    cmd: ConfigCommand,
    now: i64,
    effects: &mut Vec<Effect>,
    r: Outcome<'_>,
)
    requires
        call_ensures(ConfigActor::process_command, (actor, cmd, now, effects), r),
    ensures
        r.shutdown <==> cmd is Shutdown,
{
}

/// The state of a service is found by its name, and without a name all states are given, in the
/// order in which the services are kept; one that is not known is reported. The general log
/// settings are those of the configuration.
pub proof fn law_states_are_found(
    actor: ConfigActor,
    service: Option<String>,
    now: i64,
    s1: ConfigActor,
    s2: ConfigActor,
    reply: ConfigReply,
    logs: ConfigReply,
    d0: Seq<Deed>,
    d1: Seq<Deed>,
    d2: Seq<Deed>,
    i: int,
)
    requires
        handled(actor, ConfigCommand::GetServiceStatus { service }, now, s1, reply, d0, d1),
        handled(actor, ConfigCommand::GetGlobalLogConfig, now, s2, logs, d0, d2),
    ensures
        service matches Some(name) ==> {
            &&& !actor.services@.contains_key(name@) && !actor.services.keys().contains(name@) ==> (
            reply matches ConfigReply::Status(Err(DaemonError::ServiceNotFound(n))) && n@ == name@)
            &&& actor.services@.contains_key(name@) ==> (reply matches ConfigReply::Status(Ok(list))
                && list@.len() == 1 && actor.services.keys()[list@[0] as int] == name@)
        },
        service is None ==> (reply matches ConfigReply::Status(Ok(list)) && list@.len()
            == actor.services.keys().len() && (0 <= i < list@.len() && i <= usize::MAX ==> list@[i]
            == i)),
        actor.config.kepler matches Some(k) ==> (logs matches ConfigReply::GlobalLogs(l) && (
        match k.logs {
            Some(c) => l matches Some(x) && *x == c,
            None => l is None,
        })),
        actor.config.kepler is None ==> (logs matches ConfigReply::GlobalLogs(l) && l is None),
{
    if let Some(name) = service {
        if let ConfigReply::Status(Ok(list)) = reply {
            assert(actor.services.keys().contains(actor.services.keys()[list@[0] as int]));
        }
    }
}

/// Where nothing more will change and no start is in progress, asking to be told again tells so;
/// else it does not.
pub proof fn law_recheck_tells_quiescence(
    prev: ConfigActor,
    same: &mut ConfigActor,
    quiet: bool,
    now: i64,
    next: ConfigActor,
    reply: ConfigReply,
    before: Seq<Deed>,
    after: Seq<Deed>,
)
    requires
        handled(prev, ConfigCommand::RecheckReadyQuiescent, now, next, reply, before, after),
        *old(same) == prev,
        call_ensures(ConfigActor::compute_quiescence, (same,), quiet),
    ensures
        added(before, after, Deed::NotifyQuiescent) <==> quiet && !prev.startup_in_progress,
        next.last_quiescent <==> quiet && !prev.startup_in_progress,
{
    if quiet && !prev.startup_in_progress {
        assert(after[after.len() - 1] == Deed::NotifyQuiescent);
    }
}

/// A service that ends, waits or is skipped lets others know that nothing more will change,
/// exactly if that holds, was not told since a service was busy, and no start is in progress.
pub proof fn law_status_tells_quiescence(
    prev: ConfigActor,
    name: String,
    status: ServiceStatus,
    same: &mut ConfigActor,
    quiet: bool,
    now: i64,
    next: ConfigActor,
    reply: ConfigReply,
    before: Seq<Deed>,
    after: Seq<Deed>,
)
    requires
        handled(
            prev,
            ConfigCommand::SetServiceStatus { service_name: name, status },
            now,
            next,
            reply,
            before,
            after,
        ),
        *old(same) == next,
        call_ensures(ConfigActor::compute_quiescence, (same,), quiet),
        prev.services@.contains_key(name@),
        status == ServiceStatus::Stopped || status == ServiceStatus::Exited || status
            == ServiceStatus::Failed || status == ServiceStatus::Killed || status
            == ServiceStatus::Skipped || status == ServiceStatus::Waiting,
    ensures
        added(before, after, Deed::NotifyQuiescent) <==> quiet && !prev.startup_in_progress
            && !prev.last_quiescent,
        next.last_quiescent <==> prev.last_quiescent || (quiet && !prev.startup_in_progress),
{
    if prev.tells_quiet(next.picture(), status) {
        assert(after[after.len() - 2] == Deed::NotifyQuiescent);
    }
}

/// Nothing more will change only where the services can be ordered and none of them starts, runs
/// or stops.
pub proof fn law_quiescence_means_nothing_runs(
    actor: &mut ConfigActor,
    quiet: bool,
    a: Seq<char>,
)
    requires
        call_ensures(ConfigActor::compute_quiescence, (actor,), quiet),
        quiet,
        old(actor).config.services@.contains_key(a),
        old(actor).services@.contains_key(a),
    ensures
        old(actor).services@[a].status != ServiceStatus::Starting,
        old(actor).services@[a].status != ServiceStatus::Running,
        old(actor).services@[a].status != ServiceStatus::Healthy,
        old(actor).services@[a].status != ServiceStatus::Unhealthy,
        old(actor).services@[a].status != ServiceStatus::Stopping,
{
    reveal(Picture::quiet);
    let p = old(actor).picture();
    let settled = choose|settled: Map<Seq<char>, bool>| #[trigger]
        p.is_settlement(settled) && forall|b: Seq<char>|
            p.configs@.contains_key(b) ==> #[trigger] settled[b];
    assert(settled[a]);
    assert(p.settles(a, settled));
}

} // verus!
