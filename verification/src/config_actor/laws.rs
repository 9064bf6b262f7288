//! What holds of every command, and of commands in a row.
use vstd::prelude::*;
use crate::config_actor::actor::{checked, ConfigActor};
use crate::config_actor::command::{ConfigCommand, ConfigReply};
use crate::config_actor::context::Deed;
use crate::config::health::option_given;
use crate::config_actor::picture::Picture;
use crate::config_actor::process::handled;
use crate::state::{ServiceState, ServiceStatus};

verus! {

/// A configuration does not change while it is loaded: whatever the command, the configuration,
/// its place, its owner and the services that it knows stay the same.
pub proof fn law_configuration_never_changes(
    prev: ConfigActor,
    cmd: ConfigCommand,
    now: i64,
    next: ConfigActor,
    reply: ConfigReply,
    before: Seq<Deed>,
    after: Seq<Deed>,
)
    requires
        handled(prev, cmd, now, next, reply, before, after),
    ensures
        next.config == prev.config,
        next.config_path == prev.config_path,
        next.config_hash == prev.config_hash,
        next.config_dir == prev.config_dir,
        next.state_dir == prev.state_dir,
        next.log_config == prev.log_config,
        next.owner_uid == prev.owner_uid,
        next.owner_gid == prev.owner_gid,
        next.services.keys() == prev.services.keys(),
{
}

/// What was to be done before a command is still to be done after it, first and in the same
/// order.
pub proof fn law_deeds_are_added(
    prev: ConfigActor,
    cmd: ConfigCommand,
    now: i64,
    next: ConfigActor,
    reply: ConfigReply,
    before: Seq<Deed>,
    after: Seq<Deed>,
)
    requires
        handled(prev, cmd, now, next, reply, before, after),
    ensures
        before.is_prefix_of(after),
{
}

/// While a start is in progress nobody is told of readiness or quiescence, unless the command
/// ends the start.
pub proof fn law_no_signal_during_start(
    prev: ConfigActor,
    cmd: ConfigCommand,
    now: i64,
    next: ConfigActor,
    reply: ConfigReply,
    before: Seq<Deed>,
    after: Seq<Deed>,
)
    requires
        handled(prev, cmd, now, next, reply, before, after),
        prev.startup_in_progress,
        !(cmd is SetStartupInProgress),
    ensures
        forall|k: int|
            before.len() <= k < after.len() ==> (#[trigger] after[k]) != Deed::NotifyReady
                && after[k] != Deed::NotifyQuiescent,
{
}

/// Readiness is told only when it holds of every service: none of them starts, stops or was
/// stopped, and each that runs and has a health check was found healthy or unhealthy.
pub proof fn law_ready_told_only_of_known_health(
    prev: ConfigActor,
    cmd: ConfigCommand,
    now: i64,
    next: ConfigActor,
    reply: ConfigReply,
    before: Seq<Deed>,
    after: Seq<Deed>,
    k: int,
    a: Seq<char>,
)
    requires
        handled(prev, cmd, now, next, reply, before, after),
        before.len() <= k < after.len(),
        after[k] == Deed::NotifyReady,
        next.config.services@.contains_key(a),
        next.services@.contains_key(a),
    ensures
        option_given(next.config.services@[a].healthcheck) ==> next.services@[a].status
            != ServiceStatus::Running,
        next.services@[a].status != ServiceStatus::Starting,
        next.services@[a].status != ServiceStatus::Stopping,
        next.services@[a].status != ServiceStatus::Stopped,
{
    reveal(Picture::all_ready);
    assert(next.picture().all_ready());
    assert(next.picture().ready(a));
}

/// Whether a command may have readiness told again: it asks for that, or a service starts.
pub open spec fn renews_ready(cmd: ConfigCommand) -> bool {
    match cmd {
        ConfigCommand::RecheckReadyQuiescent => true,
        ConfigCommand::SetServiceStatus { status, .. } => status == ServiceStatus::Starting,
        ConfigCommand::SetServiceStatusWithReason { status, .. } => status
            == ServiceStatus::Starting,
        _ => false,
    }
}

/// Readiness that was told is not told again, until a service starts or somebody asks.
pub proof fn law_ready_told_once(
    prev: ConfigActor,
    cmd: ConfigCommand,
    now: i64,
    next: ConfigActor,
    reply: ConfigReply,
    before: Seq<Deed>,
    after: Seq<Deed>,
)
    requires
        handled(prev, cmd, now, next, reply, before, after),
        prev.last_ready,
        !renews_ready(cmd),
    ensures
        next.last_ready,
        forall|k: int|
            before.len() <= k < after.len() ==> (#[trigger] after[k]) != Deed::NotifyReady,
{
}

/// Whether a command may have quiescence told again: it asks for that, or a service becomes
/// busy.
pub open spec fn renews_quiet(cmd: ConfigCommand) -> bool {
    match cmd {
        ConfigCommand::RecheckReadyQuiescent => true,
        ConfigCommand::SetServiceStatus { status, .. } => ConfigActor::busy(status),
        ConfigCommand::SetServiceStatusWithReason { status, .. } => ConfigActor::busy(status),
        _ => false,
    }
}

/// Quiescence that was told is not told again, until a service is busy or somebody asks.
pub proof fn law_quiescent_told_once(
    prev: ConfigActor,
    cmd: ConfigCommand,
    now: i64,
    next: ConfigActor,
    reply: ConfigReply,
    before: Seq<Deed>,
    after: Seq<Deed>,
)
    requires
        handled(prev, cmd, now, next, reply, before, after),
        prev.last_quiescent,
        !renews_quiet(cmd),
    ensures
        next.last_quiescent,
        forall|k: int|
            before.len() <= k < after.len() ==> (#[trigger] after[k]) != Deed::NotifyQuiescent,
{
}

/// A service that is active is not claimed for a start, and nothing changes; only one that waits
/// can be claimed again.
pub proof fn law_active_service_not_claimed(
    prev: ConfigActor,
    name: String,
    now: i64,
    next: ConfigActor,
    reply: ConfigReply,
    before: Seq<Deed>,
    after: Seq<Deed>,
)
    requires
        handled(
            prev,
            ConfigCommand::ClaimServiceStart { service_name: name },
            now,
            next,
            reply,
            before,
            after,
        ),
        prev.services@.contains_key(name@),
        prev.services@[name@].status.active(),
        prev.services@[name@].status != ServiceStatus::Waiting,
    ensures
        reply == ConfigReply::Flag(false),
        next == prev,
        after == before,
{
}

/// The state of a service after `n` health checks in a row that failed.
pub open spec fn failed_checks(state: ServiceState, retries: u32, n: nat) -> ServiceState
    decreases n,
{
    if n == 0 {
        state
    } else {
        checked(failed_checks(state, retries, (n - 1) as nat), false, retries)
    }
}

/// A service without failures stays as it is while fewer checks fail in a row than are allowed,
/// and is unhealthy from then on.
pub proof fn law_unhealthy_after_failures_in_a_row(state: ServiceState, retries: u32, n: nat)
    requires
        state.health_check_failures == 0,
        n <= u32::MAX,
    ensures
        failed_checks(state, retries, n).health_check_failures == n,
        n < retries || n == 0 ==> failed_checks(state, retries, n).status == state.status,
        n >= retries && n > 0 ==> failed_checks(state, retries, n).status
            == ServiceStatus::Unhealthy,
    decreases n,
{
    if n > 0 {
        law_unhealthy_after_failures_in_a_row(state, retries, (n - 1) as nat);
    }
}

/// One check that passes makes an unhealthy service healthy, and the failures before it no longer
/// count.
pub proof fn law_passed_check_recovers(state: ServiceState, retries: u32)
    requires
        state.status == ServiceStatus::Unhealthy,
    ensures
        checked(state, true, retries).status == ServiceStatus::Healthy,
        checked(state, true, retries).health_check_failures == 0,
{
}

} // verus!
