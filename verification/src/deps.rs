//! The order of services by dependency, and the conditions that dependencies set.
use vstd::prelude::*;
use vstd::string::*;
use crate::config::deps::{
    code_matches, pair_views, rule_names, DependencyCondition, DependencyConfig, DependencyRule,
};
use crate::config::restart::RestartConfig;
use crate::config::service::RawServiceConfig;
use crate::eager::restart::RestartPolicy;
use crate::errors::DaemonError;
use crate::name_map::NameMap;
use crate::order::{
    awaits, can_follow, circular, complete, group_names, is_chain, is_grouped, is_level_map, is_order,
    is_ring, lacks, last_names_first, law_order_unique, leads, level_fits, list_views, needs,
    on_ring, plan, plan_for, reached_names, reaches, sort_names, sort_needed, stuck,
    stuck_names, waiting, OrderFault,
};
use crate::state::{ServiceState, ServiceStatus};
use crate::text::{concat, concat3, join, joined, precedes, same, views};

verus! {

// ---------------------------------------------------------------------------------------------
// Conditions
// ---------------------------------------------------------------------------------------------

/// Settings that decide whether a service is started again after it exits.
pub trait RestartRule {
    /// Whether the service is started again after an exit with this code.
    spec fn restarts(&self, exit_code: Option<i32>) -> bool;

    /// Whether the service is started again after an exit with this code.
    fn restarts_on_exit(&self, exit_code: Option<i32>) -> (r: bool)
        ensures
            r == self.restarts(exit_code),
    ;
}

impl RestartRule for RestartConfig {
    open spec fn restarts(&self, exit_code: Option<i32>) -> bool {
        self.the_policy().restarts_after(exit_code)
    }

    fn restarts_on_exit(&self, exit_code: Option<i32>) -> (r: bool) {
        self.should_restart_on_exit(exit_code)
    }
}

/// The code of an exit; a missing code counts as -1.
pub open spec fn code_or_unknown(exit_code: Option<i32>) -> i32 {
    match exit_code {
        Some(c) => c,
        None => -1i32,
    }
}

/// Whether a state counts as a failure.
pub open spec fn failed(state: ServiceState) -> bool {
    state.status == ServiceStatus::Failed || state.status == ServiceStatus::Killed || (state.status
        == ServiceStatus::Exited && state.exit_code != Some(0i32))
}

/// Whether the state of a dependency meets what is asked of it for now.
pub open spec fn meets(state: ServiceState, rule: DependencyRule) -> bool {
    match rule.condition {
        DependencyCondition::ServiceStarted => state.status.running(),
        DependencyCondition::ServiceHealthy => state.status == ServiceStatus::Healthy,
        DependencyCondition::ServiceCompletedSuccessfully => (state.status == ServiceStatus::Stopped
            || state.status == ServiceStatus::Exited) && state.exit_code == Some(0i32),
        DependencyCondition::ServiceUnhealthy => state.status == ServiceStatus::Unhealthy
            && state.was_healthy,
        DependencyCondition::ServiceFailed => failed(state) && code_matches(
            rule.exit_code,
            code_or_unknown(state.exit_code),
        ),
        DependencyCondition::ServiceStopped => state.status.ended() && code_matches(
            rule.exit_code,
            code_or_unknown(state.exit_code),
        ),
    }
}

/// Whether the service ended by itself: it exited, it failed or it was killed.
pub open spec fn ended_by_itself(state: ServiceState) -> bool {
    state.status == ServiceStatus::Exited || state.status == ServiceStatus::Killed || state.status
        == ServiceStatus::Failed
}

/// Whether a dependency is met: a skipped service meets it if skipping is allowed; else the
/// condition holds, and the service has not ended by itself where it is started again after
/// that.
pub open spec fn condition_met(state: ServiceState, rule: DependencyRule, restarts: bool) -> bool {
    if state.status == ServiceStatus::Skipped {
        rule.allow_skipped
    } else {
        meets(state, rule) && !(ended_by_itself(state) && restarts)
    }
}

/// Whether a dependency is met.
pub fn is_condition_met<R: RestartRule>(
    state: &ServiceState,
    dep_config: &DependencyConfig,
    dep_restart_config: Option<&R>,
) -> (r: bool)
    ensures
        r == condition_met(
            *state,
            dep_config@,
            dep_restart_config matches Some(c) && c.restarts(state.exit_code),
        ),
{
    if state.status == ServiceStatus::Skipped {
        return dep_config.allow_skipped;
    }
    let code: i32 = match state.exit_code {
        Some(c) => c,
        None => -1,
    };
    let succeeded: bool = match state.exit_code {
        Some(c) => c == 0,
        None => false,
    };
    let satisfied: bool = match &dep_config.condition {
        DependencyCondition::ServiceStarted => state.status.is_running(),
        DependencyCondition::ServiceHealthy => state.status == ServiceStatus::Healthy,
        DependencyCondition::ServiceCompletedSuccessfully => (state.status
            == ServiceStatus::Stopped || state.status == ServiceStatus::Exited) && succeeded,
        DependencyCondition::ServiceUnhealthy => state.status == ServiceStatus::Unhealthy
            && state.was_healthy,
        DependencyCondition::ServiceFailed => {
            let is_failure: bool = match state.status {
                ServiceStatus::Failed | ServiceStatus::Killed => true,
                ServiceStatus::Exited => !succeeded,
                _ => false,
            };
            is_failure && dep_config.exit_code.matches(code)
        },
        DependencyCondition::ServiceStopped => state.status.is_ended()
            && dep_config.exit_code.matches(code),
    };
    if !satisfied {
        return false;
    }
    match dep_restart_config {
        Some(rule) => !is_transient_satisfaction(state, rule),
        None => true,
    }
}

/// Whether the service ended by itself and is about to be started again, so that a condition on
/// its end holds only for now. A service that was stopped on request stays stopped.
pub fn is_transient_satisfaction<R: RestartRule>(dep_state: &ServiceState, restart_config: &R) -> (r:
    bool)
    ensures
        r == (ended_by_itself(*dep_state) && restart_config.restarts(dep_state.exit_code)),
{
    match dep_state.status {
        ServiceStatus::Exited | ServiceStatus::Killed | ServiceStatus::Failed =>
            restart_config.restarts_on_exit(dep_state.exit_code),
        _ => false,
    }
}

/// Whether a dependency is met, given the state of the service if it is known.
pub open spec fn satisfied_by(state: Option<&ServiceState>, rule: DependencyRule) -> bool {
    state matches Some(s) && condition_met(*s, rule, false)
}

/// Whether a dependency is met for now. A dependency of unknown state is not.
pub fn check_dependency_satisfied(state: Option<&ServiceState>, dep_config: &DependencyConfig) -> (r:
    bool)
    ensures
        r == satisfied_by(state, dep_config@),
{
    match state {
        Some(s) => is_condition_met::<RestartConfig>(s, dep_config, None),
        None => false,
    }
}

/// Whether a dependency can no longer be met: the service was skipped and that is not allowed,
/// or it ended without meeting the condition and is not started again.
pub open spec fn out_of_reach(state: ServiceState, rule: DependencyRule, restarts: bool) -> bool {
    if state.status == ServiceStatus::Skipped {
        !rule.allow_skipped
    } else {
        state.status.ended() && !meets(state, rule) && !restarts
    }
}

/// Whether a dependency can no longer be met.
pub fn is_dependency_permanently_unsatisfied<R: RestartRule>(
    state: Option<&ServiceState>,
    dep_config: &DependencyConfig,
    dep_restart_config: &R,
) -> (r: bool)
    ensures
        r == (state matches Some(s) && out_of_reach(
            *s,
            dep_config@,
            dep_restart_config.restarts(s.exit_code),
        )),
{
    let s = match state {
        Some(s) => s,
        None => {
            return false;
        },
    };
    if s.status == ServiceStatus::Skipped {
        return !dep_config.allow_skipped;
    }
    if !s.status.is_ended() {
        return false;
    }
    if check_dependency_satisfied(state, dep_config) {
        return false;
    }
    !dep_restart_config.restarts_on_exit(s.exit_code)
}

/// Why a condition can never hold for good under a restart policy.
pub open spec fn unreachable_reason(
    name: Seq<char>,
    condition: DependencyCondition,
    policy: RestartPolicy,
) -> Option<Seq<char>> {
    match (condition, policy) {
        (DependencyCondition::ServiceFailed, RestartPolicy::Always) => Some(
            "`"@ + name
                + "` has restart policy `always` — it will always restart, so `service_failed` can never be met"@,
        ),
        (DependencyCondition::ServiceStopped, RestartPolicy::Always) => Some(
            "`"@ + name
                + "` has restart policy `always` — it will always restart, so `service_stopped` can never be met"@,
        ),
        (DependencyCondition::ServiceCompletedSuccessfully, RestartPolicy::Always) => Some(
            "`"@ + name
                + "` has restart policy `always` — it will always restart, so `service_completed_successfully` can never be met"@,
        ),
        (DependencyCondition::ServiceFailed, RestartPolicy::OnFailure) => Some(
            "`"@ + name
                + "` has restart policy `on-failure` — it will always restart on failure, so `service_failed` can never be met"@,
        ),
        _ => None,
    }
}

/// Why a condition can never hold for good under a restart policy.
pub fn is_condition_unreachable_by_policy(
    dep_name: &str,
    condition: &DependencyCondition,
    dep_restart_policy: &RestartPolicy,
) -> (r: Option<String>)
    ensures
        match r {
            Some(s) => unreachable_reason(dep_name@, *condition, *dep_restart_policy) == Some(s@),
            None => unreachable_reason(dep_name@, *condition, *dep_restart_policy) is None,
        },
{
    match (condition, dep_restart_policy) {
        (DependencyCondition::ServiceFailed, RestartPolicy::Always) => Some(
            concat3(
                "`",
                dep_name,
                "` has restart policy `always` — it will always restart, so `service_failed` can never be met",
            ),
        ),
        (DependencyCondition::ServiceStopped, RestartPolicy::Always) => Some(
            concat3(
                "`",
                dep_name,
                "` has restart policy `always` — it will always restart, so `service_stopped` can never be met",
            ),
        ),
        (DependencyCondition::ServiceCompletedSuccessfully, RestartPolicy::Always) => Some(
            concat3(
                "`",
                dep_name,
                "` has restart policy `always` — it will always restart, so `service_completed_successfully` can never be met",
            ),
        ),
        (DependencyCondition::ServiceFailed, RestartPolicy::OnFailure) => Some(
            concat3(
                "`",
                dep_name,
                "` has restart policy `on-failure` — it will always restart on failure, so `service_failed` can never be met",
            ),
        ),
        _ => None,
    }
}

/// A condition that is unreachable under a policy is never met by a service that follows it,
/// as long as the service is neither stopped on request nor skipped.
pub proof fn law_unreachable_never_met(
    name: Seq<char>,
    state: ServiceState,
    rule: DependencyRule,
    policy: RestartPolicy,
)
    requires
        unreachable_reason(name, rule.condition, policy) is Some,
        state.status != ServiceStatus::Stopped,
        state.status != ServiceStatus::Skipped,
        policy == RestartPolicy::OnFailure && (state.status == ServiceStatus::Failed || state.status
            == ServiceStatus::Killed) ==> state.exit_code != Some(0i32),
    ensures
        !condition_met(state, rule, policy.restarts_after(state.exit_code)),
{
}

/// A dependency that is met is not out of reach.
pub proof fn law_met_not_out_of_reach(state: ServiceState, rule: DependencyRule, restarts: bool)
    ensures
        !(condition_met(state, rule, restarts) && out_of_reach(state, rule, restarts)),
{
}

/// Whether a dependency is met for now, without regard to restarts.
pub open spec fn met_now(state: ServiceState, asked: DependencyConfig, met: bool) -> bool {
    call_ensures(check_dependency_satisfied, (Some(&state), &asked), met)
}

/// `service_started` is met while the process runs, whatever its health, and at no other time.
pub proof fn law_started_is_met_while_running(
    state: ServiceState,
    asked: DependencyConfig,
    met: bool,
)
    requires
        met_now(state, asked, met),
        asked.condition == DependencyCondition::ServiceStarted,
        !asked.allow_skipped,
    ensures
        state.status == ServiceStatus::Running ==> met,
        state.status == ServiceStatus::Healthy ==> met,
        state.status == ServiceStatus::Unhealthy ==> met,
        state.status != ServiceStatus::Running && state.status != ServiceStatus::Healthy
            && state.status != ServiceStatus::Unhealthy ==> !met,
{
}

/// `service_healthy` is met by a healthy service only, and `service_unhealthy` by an unhealthy one
/// only, which must have been healthy before.
pub proof fn law_health_conditions_follow_health(
    state: ServiceState,
    asked: DependencyConfig,
    met: bool,
)
    requires
        met_now(state, asked, met),
        state.status != ServiceStatus::Skipped,
    ensures
        asked.condition == DependencyCondition::ServiceHealthy ==> (met <==> state.status
            == ServiceStatus::Healthy),
        asked.condition == DependencyCondition::ServiceUnhealthy ==> (met <==> state.status
            == ServiceStatus::Unhealthy && state.was_healthy),
{
}

/// `service_completed_successfully` is met by a service that ended with code 0, by itself or on
/// request, and by no other.
pub proof fn law_completed_is_met_by_code_zero(
    state: ServiceState,
    asked: DependencyConfig,
    met: bool,
)
    requires
        met_now(state, asked, met),
        asked.condition == DependencyCondition::ServiceCompletedSuccessfully,
        state.status != ServiceStatus::Skipped,
    ensures
        state.status == ServiceStatus::Exited && state.exit_code == Some(0i32) ==> met,
        state.status == ServiceStatus::Stopped && state.exit_code == Some(0i32) ==> met,
        met ==> state.exit_code == Some(0i32),
        met ==> state.status == ServiceStatus::Exited || state.status == ServiceStatus::Stopped,
{
}

/// Without a filter on exit codes, `service_failed` is met by a service that failed, was killed,
/// or exited with another code than 0 or without one, and by no other.
pub proof fn law_failed_is_met_by_every_failure(
    state: ServiceState,
    asked: DependencyConfig,
    met: bool,
)
    requires
        met_now(state, asked, met),
        asked.condition == DependencyCondition::ServiceFailed,
        asked.exit_code.0@.len() == 0,
        state.status != ServiceStatus::Skipped,
    ensures
        state.status == ServiceStatus::Failed ==> met,
        state.status == ServiceStatus::Killed ==> met,
        state.status == ServiceStatus::Exited ==> (met <==> state.exit_code != Some(0i32)),
        met ==> state.status == ServiceStatus::Failed || state.status == ServiceStatus::Killed
            || state.status == ServiceStatus::Exited,
{
}

/// Without a filter on exit codes, `service_stopped` is met by every service that ended, in
/// whatever way, and by no other.
pub proof fn law_stopped_is_met_by_every_end(
    state: ServiceState,
    asked: DependencyConfig,
    met: bool,
)
    requires
        met_now(state, asked, met),
        asked.condition == DependencyCondition::ServiceStopped,
        asked.exit_code.0@.len() == 0,
        state.status != ServiceStatus::Skipped,
    ensures
        met <==> state.status == ServiceStatus::Stopped || state.status == ServiceStatus::Exited
            || state.status == ServiceStatus::Failed || state.status == ServiceStatus::Killed,
{
}

/// A filter on exit codes lets through the codes from the start to the end of one of its ranges,
/// both included, where a missing code counts as -1. It bears on `service_failed` and
/// `service_stopped`, and on no other condition.
pub proof fn law_filter_narrows_failure_and_end(
    state: ServiceState,
    asked: DependencyConfig,
    open: DependencyConfig,
    met: bool,
    met_open: bool,
    k: int,
)
    requires
        met_now(state, asked, met),
        met_now(state, open, met_open),
        open.exit_code.0@.len() == 0,
        asked.exit_code.0@.len() > 0,
        open.condition == asked.condition,
        open.allow_skipped == asked.allow_skipped,
        0 <= k < asked.exit_code.0@.len(),
        state.status != ServiceStatus::Skipped,
    ensures
        met ==> met_open,
        asked.condition != DependencyCondition::ServiceFailed && asked.condition
            != DependencyCondition::ServiceStopped ==> met == met_open,
        ({
            let range = asked.exit_code.0@[k];
            let code: int = match state.exit_code {
                Some(c) => c as int,
                None => -1int,
            };
            met_open && range.start <= code && code <= range.end ==> met
        }),
        asked.exit_code.0@.len() == 1 && met && (asked.condition
            == DependencyCondition::ServiceFailed || asked.condition
            == DependencyCondition::ServiceStopped) ==> ({
            let range = asked.exit_code.0@[0];
            match state.exit_code {
                Some(c) => range.start <= c && c <= range.end,
                None => range.start <= -1 && -1 <= range.end,
            }
        }),
{
    let range = asked.exit_code.0@[k];
    assert(asked@.exit_code[k] == range);
    if asked.exit_code.0@.len() == 1 {
        assert(asked@.exit_code[0] == asked.exit_code.0@[0]);
    }
}

/// A skipped service meets what is asked exactly if it may be skipped, whatever the condition; a
/// service whose state is not known meets nothing.
pub proof fn law_skipped_meets_only_if_allowed(
    state: ServiceState,
    asked: DependencyConfig,
    met: bool,
    unknown: bool,
)
    requires
        met_now(state, asked, met),
        state.status == ServiceStatus::Skipped,
        call_ensures(check_dependency_satisfied, (None::<&ServiceState>, &asked), unknown),
    ensures
        met == asked.allow_skipped,
        !unknown,
{
}

/// A service that ended by itself and is started again does not meet a condition on its end, and
/// where it is not started again restarts play no part. A service that still runs, or was stopped
/// on request, meets or fails a condition whatever its restart settings are.
pub proof fn law_restart_suspends_an_end(
    state: ServiceState,
    asked: DependencyConfig,
    restart: RestartConfig,
    met: bool,
    met_alone: bool,
)
    requires
        met_now(state, asked, met_alone),
        call_ensures(
            is_condition_met::<RestartConfig>,
            (&state, &asked, Some(&restart)),
            met,
        ),
    ensures
        met ==> met_alone,
        (state.status == ServiceStatus::Exited || state.status == ServiceStatus::Failed
            || state.status == ServiceStatus::Killed) && restart.restarts(state.exit_code) ==> !met,
        !restart.restarts(state.exit_code) ==> met == met_alone,
        state.status != ServiceStatus::Exited && state.status != ServiceStatus::Failed
            && state.status != ServiceStatus::Killed ==> met == met_alone,
{
}

/// A dependency is out of reach exactly if its service was skipped and must not be, or ended, does
/// not meet what is asked, and is not started again.
pub proof fn law_out_of_reach_after_the_last_end(
    state: ServiceState,
    asked: DependencyConfig,
    restart: RestartConfig,
    met: bool,
    lost: bool,
    unknown: bool,
)
    requires
        met_now(state, asked, met),
        call_ensures(
            is_dependency_permanently_unsatisfied::<RestartConfig>,
            (Some(&state), &asked, &restart),
            lost,
        ),
        call_ensures(
            is_dependency_permanently_unsatisfied::<RestartConfig>,
            (None::<&ServiceState>, &asked, &restart),
            unknown,
        ),
    ensures
        !unknown,
        lost ==> !met,
        state.status == ServiceStatus::Skipped ==> lost == !asked.allow_skipped,
        (state.status == ServiceStatus::Stopped || state.status == ServiceStatus::Exited
            || state.status == ServiceStatus::Failed || state.status == ServiceStatus::Killed)
            ==> lost == (!met && !restart.restarts(state.exit_code)),
        state.status != ServiceStatus::Skipped && state.status != ServiceStatus::Stopped
            && state.status != ServiceStatus::Exited && state.status != ServiceStatus::Failed
            && state.status != ServiceStatus::Killed ==> !lost,
{
}

/// Under the policy `always` no condition on an end can hold for good, and under `on-failure` none
/// on a failure. Nothing else is out of reach by the policy alone.
pub proof fn law_policy_rules_out_ends(
    name: &str,
    condition: DependencyCondition,
    policy: RestartPolicy,
    reason: Option<String>,
)
    requires
        call_ensures(is_condition_unreachable_by_policy, (name, &condition, &policy), reason),
    ensures
        policy == RestartPolicy::Always ==> (reason is Some <==> condition
            == DependencyCondition::ServiceFailed || condition
            == DependencyCondition::ServiceStopped || condition
            == DependencyCondition::ServiceCompletedSuccessfully),
        policy == RestartPolicy::OnFailure ==> (reason is Some <==> condition
            == DependencyCondition::ServiceFailed),
        policy == RestartPolicy::No ==> reason is None,
{
}

/// Whether the failure of a service concerns another one: some service depends on it under a
/// condition that a failure can meet.
pub open spec fn failure_handled(name: Seq<char>, services: NameMap<RawServiceConfig>) -> bool {
    exists|i: int, k: int|
        0 <= i < services.values().len() && 0 <= k < services.values()[i].depends_on.rules().len()
            && reacts_to_failure(#[trigger] services.values()[i].depends_on.rules()[k], name)
}

/// Whether a rule asks for a condition on the named service that a failure can meet.
pub open spec fn reacts_to_failure(rule: (Seq<char>, DependencyRule), name: Seq<char>) -> bool {
    rule.0 == name && (rule.1.condition == DependencyCondition::ServiceFailed || rule.1.condition
        == DependencyCondition::ServiceStopped)
}

/// Whether the failure of a service concerns another one.
pub fn is_failure_handled(name: &str, services: &NameMap<RawServiceConfig>) -> (r: bool)
    ensures
        r == failure_handled(name@, *services),
{
    let n: usize = services.len();
    let mut i: usize = 0;
    while i < n
        invariant
            i <= n,
            n == services.keys().len(),
            services.well_formed(),
            forall|j: int, k: int|
                0 <= j < i && 0 <= k < services.values()[j].depends_on.rules().len()
                    ==> !reacts_to_failure(
                    #[trigger] services.values()[j].depends_on.rules()[k],
                    name@,
                ),
        decreases n - i,
    {
        let pairs = services.value_at(i).depends_on.iter();
        let ghost rules = services.values()[i as int].depends_on.rules();
        let mut k: usize = 0;
        while k < pairs.len()
            invariant
                k <= pairs@.len(),
                i < n,
                n == services.keys().len(),
                services.well_formed(),
                rules == services.values()[i as int].depends_on.rules(),
                pair_views(pairs@) == rules,
                forall|q: int| 0 <= q < k ==> !reacts_to_failure(#[trigger] rules[q], name@),
            decreases pairs@.len() - k,
        {
            assert(rules[k as int] == (pairs@[k as int].0@, pairs@[k as int].1@));
            if same(pairs[k].0.as_str(), name) {
                match pairs[k].1.condition {
                    DependencyCondition::ServiceFailed | DependencyCondition::ServiceStopped => {
                        return true;
                    },
                    _ => {},
                }
            }
            k += 1;
        }
        i += 1;
    }
    false
}

/// The failure of a service is handled if some service asks that it failed or that it stopped;
/// services that ask for something else, or of another service, do not handle it.
pub proof fn law_failure_is_handled_by_those_who_ask(
    name: &str,
    services: NameMap<RawServiceConfig>,
    handled: bool,
    i: int,
    k: int,
)
    requires
        call_ensures(is_failure_handled, (name, &services), handled),
        0 <= i < services.values().len(),
        0 <= k < services.values()[i].depends_on.rules().len(),
    ensures
        ({
            let (of, rule) = services.values()[i].depends_on.rules()[k];
            of == name@ && (rule.condition == DependencyCondition::ServiceFailed || rule.condition
                == DependencyCondition::ServiceStopped) ==> handled
        }),
        (forall|j: int, q: int|
            0 <= j < services.values().len() && 0 <= q
                < services.values()[j].depends_on.rules().len() ==> {
                let (of, rule) = #[trigger] services.values()[j].depends_on.rules()[q];
                of != name@ || (rule.condition != DependencyCondition::ServiceFailed
                    && rule.condition != DependencyCondition::ServiceStopped)
            }) ==> !handled,
{
    let rule = services.values()[i].depends_on.rules()[k];
    if rule.0 == name@ && (rule.1.condition == DependencyCondition::ServiceFailed
        || rule.1.condition == DependencyCondition::ServiceStopped) {
        assert(reacts_to_failure(rule, name@));
    }
}

// ---------------------------------------------------------------------------------------------
// Order
// ---------------------------------------------------------------------------------------------

/// The plan of the services: each name with the names that it depends on.
pub open spec fn service_plan(services: NameMap<RawServiceConfig>) -> Map<
    Seq<char>,
    Seq<Seq<char>>,
> {
    Map::new(
        |a: Seq<char>| services@.contains_key(a),
        |a: Seq<char>| services@[a].depends_on.dep_names(),
    )
}

/// The message on names that wait for each other.
pub open spec fn cycle_text(names: Seq<Seq<char>>) -> Seq<char> {
    "Cycle detected involving: "@ + joined(names, ", "@)
}

/// The names of the services and of what each depends on.
fn plan_of(services: &NameMap<RawServiceConfig>) -> (r: (Vec<String>, Vec<Vec<String>>))
    ensures
        views(r.0@) == services.keys(),
        services.keys().no_duplicates(),
        r.0@.len() == r.1@.len(),
        plan(views(r.0@), list_views(r.1@)) == service_plan(*services),
{
    let n: usize = services.len();
    let mut names: Vec<String> = Vec::new();
    let mut lists: Vec<Vec<String>> = Vec::new();
    let mut i: usize = 0;
    while i < n
        invariant
            i <= n,
            n == services.keys().len(),
            services.well_formed(),
            names@.len() == i,
            lists@.len() == i,
            forall|k: int| 0 <= k < i ==> (#[trigger] names@[k])@ == services.keys()[k],
            forall|k: int|
                0 <= k < i ==> views((#[trigger] lists@[k])@)
                    == services.values()[k].depends_on.dep_names(),
        decreases n - i,
    {
        names.push(services.key_at(i).clone());
        lists.push(services.value_at(i).depends_on.names());
        i += 1;
    }
    proof {
        assert(views(names@) == services.keys());
        let m = plan(views(names@), list_views(lists@));
        assert forall|a: Seq<char>| m.contains_key(a) implies m[a] == service_plan(*services)[a] by {
            let k = services.keys().index_of(a);
            assert(views(lists@[k]@) == services.values()[k].depends_on.dep_names());
        }
        assert(m =~= service_plan(*services));
    }
    (names, lists)
}

/// The error for names that cannot be ordered.
fn order_error(fault: OrderFault) -> (r: DaemonError)
    ensures
        match fault {
            OrderFault::Missing { name, needed } => r == (DaemonError::MissingDependency {
                service: name,
                dependency: needed,
            }),
            OrderFault::Cycle { names } => r matches DaemonError::DependencyCycle(t) && t@
                == cycle_text(views(names@)),
        },
{
    match fault {
        OrderFault::Missing { name, needed } => DaemonError::MissingDependency {
            service: name,
            dependency: needed,
        },
        OrderFault::Cycle { names } => {
            let list = join(&names, ", ");
            DaemonError::DependencyCycle(concat("Cycle detected involving: ", list.as_str()))
        },
    }
}

/// Whether the result is the order of the services, or the error on what prevents one.
pub open spec fn ordered(
    services: NameMap<RawServiceConfig>,
    r: Result<Seq<Seq<char>>, DaemonError>,
) -> bool {
    let m = service_plan(services);
    match r {
        Ok(order) => complete(m) && !circular(m) && is_order(m, order) && last_names_first(m, order),
        Err(DaemonError::MissingDependency { service, dependency }) => lacks(
            m,
            service@,
            dependency@,
        ),
        Err(DaemonError::DependencyCycle(t)) => complete(m) && circular(m) && t@ == cycle_text(
            stuck_names(services.keys(), m),
        ),
        Err(_) => false,
    }
}

/// The result with the views of the names.
pub open spec fn order_view(r: Result<Vec<String>, DaemonError>) -> Result<
    Seq<Seq<char>>,
    DaemonError,
> {
    match r {
        Ok(list) => Ok(views(list@)),
        Err(e) => Err(e),
    }
}

/// The services in an order in which they can start: each after those that it depends on, and of
/// those that can come next the last by name.
pub fn get_start_order(services: &NameMap<RawServiceConfig>) -> (r: Result<Vec<String>, DaemonError>)
    ensures
        ordered(*services, order_view(r)),
{
    topological_sort(services)
}

fn topological_sort(services: &NameMap<RawServiceConfig>) -> (r: Result<Vec<String>, DaemonError>)
    ensures
        ordered(*services, order_view(r)),
{
    let (names, lists) = plan_of(services);
    match sort_names(&names, &lists) {
        Ok(order) => Ok(order),
        Err(fault) => Err(order_error(fault)),
    }
}

/// Whether the result is the order in which services stop, or the error on what prevents one.
pub open spec fn stop_ordered(
    services: NameMap<RawServiceConfig>,
    r: Result<Seq<Seq<char>>, DaemonError>,
) -> bool {
    match r {
        Ok(order) => ordered(services, Ok(order.reverse())),
        Err(e) => ordered(services, Err(e)),
    }
}

/// Whether two results are alike: both the same order, or errors of the same kind.
pub open spec fn alike(
    a: Result<Seq<Seq<char>>, DaemonError>,
    b: Result<Seq<Seq<char>>, DaemonError>,
) -> bool {
    match (a, b) {
        (Ok(x), Ok(y)) => x == y,
        (Err(DaemonError::MissingDependency { .. }), Err(DaemonError::MissingDependency { .. })) =>
            true,
        (Err(DaemonError::DependencyCycle(_)), Err(DaemonError::DependencyCycle(_))) => true,
        _ => false,
    }
}

/// The start order depends on the names of the services and on what each depends on alone: two
/// maps that agree on these give the same order, or fail alike, in whatever order they were
/// filled.
pub proof fn law_start_order_deterministic(
    first: NameMap<RawServiceConfig>,
    second: NameMap<RawServiceConfig>,
    a: Result<Seq<Seq<char>>, DaemonError>,
    b: Result<Seq<Seq<char>>, DaemonError>,
)
    requires
        service_plan(first) == service_plan(second),
        ordered(first, a),
        ordered(second, b),
    ensures
        alike(a, b),
{
    let m = service_plan(first);
    if a is Ok && b is Ok {
        law_order_unique(m, a->Ok_0, b->Ok_0);
    }
    assert(complete(m) ==> !(a is Err && a->Err_0 is MissingDependency)) by {
        if let Err(DaemonError::MissingDependency { service, dependency }) = a {
            assert(needs(m, service@, dependency@));
        }
    }
    assert(complete(m) ==> !(b is Err && b->Err_0 is MissingDependency)) by {
        if let Err(DaemonError::MissingDependency { service, dependency }) = b {
            assert(needs(m, service@, dependency@));
        }
    }
}

/// The stop order is the start order reversed, and there is one exactly if there is the other;
/// otherwise both fail alike.
pub proof fn law_stop_order_is_start_order_reversed(
    services: NameMap<RawServiceConfig>,
    start: Result<Seq<Seq<char>>, DaemonError>,
    stop: Result<Seq<Seq<char>>, DaemonError>,
)
    requires
        ordered(services, start),
        stop_ordered(services, stop),
    ensures
        match start {
            Ok(order) => stop == Ok::<Seq<Seq<char>>, DaemonError>(order.reverse()),
            Err(_) => stop is Err && alike(start, stop),
        },
{
    match stop {
        Ok(order) => {
            law_start_order_deterministic(services, services, start, Ok(order.reverse()));
            assert(order.reverse().reverse() =~= order);
        },
        Err(e) => {
            law_start_order_deterministic(services, services, start, Err(e));
        },
    }
}

/// The services in an order in which they can stop: the order in which they start, reversed.
pub fn get_stop_order(services: &NameMap<RawServiceConfig>) -> (r: Result<Vec<String>, DaemonError>)
    ensures
        stop_ordered(*services, order_view(r)),
{
    match topological_sort(services) {
        Ok(order) => {
            let mut out: Vec<String> = Vec::new();
            let n: usize = order.len();
            let mut i: usize = n;
            while i > 0
                invariant
                    i <= n,
                    n == order@.len(),
                    out@.len() == n - i,
                    forall|k: int| 0 <= k < n - i ==> (#[trigger] out@[k])@ == order@[n - 1 - k]@,
                decreases i,
            {
                i -= 1;
                out.push(order[i].clone());
            }
            proof {
                let reversed = views(out@).reverse();
                assert(reversed.len() == order@.len());
                assert forall|k: int| 0 <= k < reversed.len() implies #[trigger] reversed[k] == views(
                    order@,
                )[k] by {
                    assert(out@[n - 1 - k]@ == order@[k]@);
                }
                assert(reversed =~= views(order@));
            }
            Ok(out)
        },
        Err(e) => Err(e),
    }
}

/// In a stop order each service comes before those that it depends on.
pub proof fn law_stop_order_reverses(
    m: Map<Seq<char>, Seq<Seq<char>>>,
    stop: Seq<Seq<char>>,
    p: int,
    b: Seq<char>,
)
    requires
        is_order(m, stop.reverse()),
        0 <= p < stop.len(),
        needs(m, stop[p], b),
    ensures
        exists|q: int| p < q < stop.len() && stop[q] == b,
{
    let start = stop.reverse();
    let k = stop.len() - 1 - p;
    assert(start[k] == stop[p]);
    assert(needs(m, start[k], b));
    let q = choose|q: int| 0 <= q < k && start[q] == b;
    assert(stop[stop.len() - 1 - q] == b);
}

/// The services by level. Services of one level do not depend on each other; what they depend
/// on has a smaller level.
pub fn get_start_levels(services: &NameMap<RawServiceConfig>) -> (r: Result<
    Vec<Vec<String>>,
    DaemonError,
>)
    ensures
        ({
            let m = service_plan(*services);
            match r {
                Ok(groups) => complete(m) && !circular(m) && exists|lv: Map<Seq<char>, nat>| #[trigger]
                    is_level_map(m, lv) && is_grouped(lv, list_views(groups@)),
                Err(DaemonError::MissingDependency { service, dependency }) => lacks(
                    m,
                    service@,
                    dependency@,
                ),
                Err(DaemonError::DependencyCycle(t)) => complete(m) && exists|a: Seq<char>| #[trigger]
                    on_ring(m, a) && t@ == cycle_text(seq![a]),
                Err(_) => false,
            }
        }),
{
    let (names, lists) = plan_of(services);
    match group_names(&names, &lists) {
        Ok(groups) => Ok(groups),
        Err(fault) => {
            proof {
                if fault is Cycle {
                    let left = views(fault->Cycle_names@);
                    assert(left == seq![left[0]]);
                    assert(on_ring(service_plan(*services), left[0]));
                }
            }
            Err(order_error(fault))
        },
    }
}

/// A service and all services that it depends on, directly or through others, in an order in
/// which they can start.
pub fn get_service_with_deps(service: &str, services: &NameMap<RawServiceConfig>) -> (r: Result<
    Vec<String>,
    DaemonError,
>)
    ensures
        ({
            let m = service_plan(*services);
            let part = plan_for(m, service@);
            match r {
                Ok(order) => m.contains_key(service@) && complete(part) && !circular(part)
                    && is_order(part, views(order@)) && last_names_first(part, views(order@)),
                Err(DaemonError::ServiceNotFound(n)) => !m.contains_key(service@) && n@ == service@,
                Err(DaemonError::MissingDependency { service: a, dependency: b }) => m.contains_key(
                    service@,
                ) && reaches(m, service@, a@) && lacks(m, a@, b@),
                Err(DaemonError::DependencyCycle(t)) => m.contains_key(service@) && complete(part)
                    && circular(part) && t@ == cycle_text(
                    stuck_names(reached_names(services.keys(), m, service@), part),
                ),
                Err(_) => false,
            }
        }),
{
    let from: usize = match services.position(service) {
        Some(i) => i,
        None => {
            return Err(DaemonError::ServiceNotFound(service.to_owned()));
        },
    };
    let (names, lists) = plan_of(services);
    assert(views(names@)[from as int] == service@);
    match sort_needed(&names, &lists, service, from) {
        Ok(order) => Ok(order),
        Err(fault) => Err(order_error(fault)),
    }
}

/// Checks that all dependencies exist and that there is no cycle.
pub fn detect_cycles(services: &NameMap<RawServiceConfig>) -> (r: Result<(), DaemonError>)
    ensures
        match r {
            Ok(_) => complete(service_plan(*services)) && !circular(service_plan(*services)),
            Err(e) => ordered(*services, Err(e)),
        },
{
    match topological_sort(services) {
        Ok(_) => Ok(()),
        Err(e) => Err(e),
    }
}

/// In the order in which services start each of them stands once, and everything that it depends
/// on, whatever is asked of it, stands before it.
pub proof fn law_services_start_after_what_they_depend_on(
    services: NameMap<RawServiceConfig>,
    order: Vec<String>,
    a: Seq<char>,
    k: int,
    p: int,
)
    requires
        call_ensures(get_start_order, (&services,), Ok::<Vec<String>, DaemonError>(order)),
        services@.contains_key(a),
    ensures
        exists|i: int| 0 <= i < order@.len() && (#[trigger] order@[i])@ == a,
        views(order@).no_duplicates(),
        0 <= p < order@.len() ==> services@.contains_key(order@[p]@),
        0 <= p < order@.len() && order@[p]@ == a && 0 <= k < services@[a].depends_on.rules().len()
            ==> exists|q: int|
            0 <= q < p && (#[trigger] order@[q])@ == services@[a].depends_on.rules()[k].0,
{
    let m = service_plan(services);
    let names = views(order@);
    assert(m.contains_key(a));
    assert(names.contains(a));
    let i = names.index_of(a);
    assert(order@[i]@ == a);
    if 0 <= p < order@.len() {
        assert(names[p] == order@[p]@);
        assert(names.contains(names[p]));
        assert(m.contains_key(names[p]));
    }
    if 0 <= p < order@.len() && order@[p]@ == a && 0 <= k < services@[a].depends_on.rules().len() {
        let rules = services@[a].depends_on.rules();
        let b = rules[k].0;
        assert(rule_names(rules)[k] == b);
        assert(m[a].contains(b));
        assert(needs(m, names[p], b));
        let q = choose|q: int| 0 <= q < p && names[q] == b;
        assert(order@[q]@ == b);
    }
}

/// Services stop in the order in which they start, from the last to the first, and there is one
/// order exactly if there is the other.
pub proof fn law_services_stop_in_reverse(
    services: NameMap<RawServiceConfig>,
    start: Result<Vec<String>, DaemonError>,
    stop: Result<Vec<String>, DaemonError>,
    i: int,
)
    requires
        call_ensures(get_start_order, (&services,), start),
        call_ensures(get_stop_order, (&services,), stop),
    ensures
        start is Ok <==> stop is Ok,
        start is Ok ==> start->Ok_0@.len() == stop->Ok_0@.len() && (0 <= i < stop->Ok_0@.len()
            ==> stop->Ok_0@[i]@ == start->Ok_0@[start->Ok_0@.len() - 1 - i]@),
{
    law_stop_order_is_start_order_reversed(services, order_view(start), order_view(stop));
    if let (Ok(a), Ok(b)) = (start, stop) {
        assert(views(a@).len() == a@.len());
        assert(views(b@).len() == b@.len());
        if 0 <= i < b@.len() {
            assert(views(b@)[i] == b@[i]@);
            assert(views(a@)[a@.len() - 1 - i] == a@[a@.len() - 1 - i]@);
        }
    }
}

/// Where a service depends on one that is not there, nothing can be started: each order fails with
/// a missing dependency.
pub proof fn law_missing_dependency_is_reported(
    services: NameMap<RawServiceConfig>,
    a: Seq<char>,
    k: int,
    start: Result<Vec<String>, DaemonError>,
    levels: Result<Vec<Vec<String>>, DaemonError>,
    check: Result<(), DaemonError>,
)
    requires
        call_ensures(get_start_order, (&services,), start),
        call_ensures(get_start_levels, (&services,), levels),
        call_ensures(detect_cycles, (&services,), check),
        services@.contains_key(a),
        0 <= k < services@[a].depends_on.rules().len(),
        !services@.contains_key(services@[a].depends_on.rules()[k].0),
    ensures
        start matches Err(DaemonError::MissingDependency { .. }),
        levels matches Err(DaemonError::MissingDependency { .. }),
        check matches Err(DaemonError::MissingDependency { .. }),
{
    let m = service_plan(services);
    let rules = services@[a].depends_on.rules();
    assert(rule_names(rules)[k] == rules[k].0);
    assert(m[a].contains(rules[k].0));
    assert(needs(m, a, rules[k].0));
    assert(!complete(m));
}

/// Services that depend on each other in a ring cannot be started: each order fails with a cycle,
/// unless a dependency is missing.
pub proof fn law_ring_is_reported(
    services: NameMap<RawServiceConfig>,
    a: Seq<char>,
    b: Seq<char>,
    k: int,
    q: int,
    start: Result<Vec<String>, DaemonError>,
    levels: Result<Vec<Vec<String>>, DaemonError>,
    check: Result<(), DaemonError>,
)
    requires
        call_ensures(get_start_order, (&services,), start),
        call_ensures(get_start_levels, (&services,), levels),
        call_ensures(detect_cycles, (&services,), check),
        services@.contains_key(a),
        services@.contains_key(b),
        0 <= k < services@[a].depends_on.rules().len(),
        services@[a].depends_on.rules()[k].0 == b,
        0 <= q < services@[b].depends_on.rules().len(),
        services@[b].depends_on.rules()[q].0 == a,
    ensures
        (start matches Err(DaemonError::DependencyCycle(_))) || (start matches Err(
            DaemonError::MissingDependency { .. },
        )),
        (levels matches Err(DaemonError::DependencyCycle(_))) || (levels matches Err(
            DaemonError::MissingDependency { .. },
        )),
        check is Err,
{
    let m = service_plan(services);
    let rules = services@[a].depends_on.rules();
    let back = services@[b].depends_on.rules();
    assert(rule_names(rules)[k] == b);
    assert(rule_names(back)[q] == a);
    assert(m[a].contains(b));
    assert(m[b].contains(a));
    let ring = seq![a, b];
    assert(needs(m, a, b));
    assert(needs(m, b, a));
    assert(is_ring(m, ring));
    assert(circular(m));
}

/// A service that depends on nothing is in the first level, and every other one in a later level
/// than all that it depends on, by exactly one more than the latest of them.
pub proof fn law_levels_rise_with_dependencies(
    services: NameMap<RawServiceConfig>,
    levels: Vec<Vec<String>>,
    a: Seq<char>,
    k: int,
    l: int,
)
    requires
        call_ensures(get_start_levels, (&services,), Ok::<Vec<Vec<String>>, DaemonError>(levels)),
        services@.contains_key(a),
        0 <= l < levels@.len(),
        views(levels@[l]@).contains(a),
    ensures
        services@[a].depends_on.rules().len() == 0 ==> l == 0,
        0 <= k < services@[a].depends_on.rules().len() ==> exists|h: int|
            0 <= h < l && #[trigger] views(levels@[h]@).contains(
                services@[a].depends_on.rules()[k].0,
            ),
{
    let m = service_plan(services);
    let groups = list_views(levels@);
    let lv = choose|lv: Map<Seq<char>, nat>| #[trigger]
        is_level_map(m, lv) && is_grouped(lv, groups);
    assert(groups[l] == views(levels@[l]@));
    assert(groups[l].contains(a));
    assert(lv[a] == l);
    assert(level_fits(m, lv, a));
    let rules = services@[a].depends_on.rules();
    assert(rule_names(rules).len() == rules.len());
    if 0 <= k < rules.len() {
        let b = rules[k].0;
        assert(rule_names(rules)[k] == b);
        assert(m[a].contains(b));
        assert(needs(m, a, b));
        assert(m.contains_key(b));
        assert(lv.contains_key(b));
        let h = lv[b] as int;
        assert(groups[h].contains(b));
        assert(groups[h] == views(levels@[h]@));
    }
}

/// A service comes with everything that it depends on, before it; a service that is not there is
/// reported.
pub proof fn law_service_comes_with_its_dependencies(
    services: NameMap<RawServiceConfig>,
    name: &str,
    r: Result<Vec<String>, DaemonError>,
    k: int,
)
    requires
        call_ensures(get_service_with_deps, (name, &services), r),
    ensures
        !services@.contains_key(name@) ==> (r matches Err(DaemonError::ServiceNotFound(n)) && n@
            == name@),
        r is Ok ==> views(r->Ok_0@).contains(name@) && views(r->Ok_0@).no_duplicates(),
        r is Ok && 0 <= k < services@[name@].depends_on.rules().len() ==> views(
            r->Ok_0@,
        ).contains(services@[name@].depends_on.rules()[k].0),
{
    let m = service_plan(services);
    if let Ok(order) = r {
        let part = plan_for(m, name@);
        lemma_reaches_itself(m, name@);
        assert(part.contains_key(name@));
        assert(views(order@).contains(name@));
        if 0 <= k < services@[name@].depends_on.rules().len() {
            let rules = services@[name@].depends_on.rules();
            let b = rules[k].0;
            assert(rule_names(rules)[k] == b);
            assert(m[name@].contains(b));
            assert(part[name@].contains(b));
            assert(needs(part, name@, b));
            assert(part.contains_key(b));
            assert(views(order@).contains(b));
        }
    }
}

/// A name reaches itself.
proof fn lemma_reaches_itself(m: Map<Seq<char>, Seq<Seq<char>>>, a: Seq<char>)
    requires
        m.contains_key(a),
    ensures
        reaches(m, a, a),
{
    let c = seq![a];
    assert(is_chain(m, c));
    assert(leads(m, c, a, a));
}

/// Of services that depend on nothing, the later by name starts first.
pub proof fn law_free_services_start_by_descending_name(
    services: NameMap<RawServiceConfig>,
    order: Vec<String>,
    p: int,
    q: int,
)
    requires
        call_ensures(get_start_order, (&services,), Ok::<Vec<String>, DaemonError>(order)),
        0 <= p < q < order@.len(),
        services@[order@[q]@].depends_on.rules().len() == 0,
    ensures
        precedes(order@[q]@, order@[p]@),
{
    let m = service_plan(services);
    let names = views(order@);
    let a = names[q];
    assert(a == order@[q]@);
    assert(names.contains(a));
    assert(m.contains_key(a));
    assert(m[a].len() == 0);
    let before = names.take(p);
    assert(!before.contains(a)) by {
        if before.contains(a) {
            let i = before.index_of(a);
            assert(names[i] == names[q]);
        }
    }
    assert forall|b: Seq<char>| #[trigger] needs(m, a, b) implies before.contains(b) by {
        assert(m[a].contains(b));
    }
    assert(can_follow(m, before, a));
    assert(names[p] == order@[p]@);
    assert(names[p] != names[q]);
}

/// Whether a service is started again is what its restart settings say.
pub proof fn law_rules_are_the_settings(
    c: RestartConfig,
    e: crate::eager::restart::RestartConfig,
    code: Option<i32>,
    r: bool,
    s: bool,
)
    requires
        call_ensures(RestartConfig::should_restart_on_exit, (&c, code), r),
        call_ensures(crate::eager::restart::RestartConfig::should_restart_on_exit, (&e, code), s),
    ensures
        c.restarts(code) == r,
        e.restarts(code) == s,
{
}

/// An end does not last exactly if the service exited, failed or was killed and is started again;
/// one that was stopped on request lasts.
pub proof fn law_ends_that_do_not_last(state: ServiceState, c: RestartConfig, r: bool)
    requires
        call_ensures(is_transient_satisfaction::<RestartConfig>, (&state, &c), r),
    ensures
        state.status == ServiceStatus::Exited || state.status == ServiceStatus::Failed
            || state.status == ServiceStatus::Killed ==> r == c.restarts(state.exit_code),
        state.status != ServiceStatus::Exited && state.status != ServiceStatus::Failed
            && state.status != ServiceStatus::Killed ==> !r,
{
}

/// A service that depends on itself cannot be started, and is named.
pub proof fn law_self_dependency_is_named(
    services: NameMap<RawServiceConfig>,
    a: Seq<char>,
    start: Result<Vec<String>, DaemonError>,
)
    requires
        call_ensures(get_start_order, (&services,), start),
        services.keys() == seq![a],
        forall|b: Seq<char>| #[trigger] services@.contains_key(b) <==> b == a,
        services@[a].depends_on.rules().len() == 1,
        services@[a].depends_on.rules()[0].0 == a,
    ensures
        start matches Err(DaemonError::DependencyCycle(t)) && t@ == "Cycle detected involving: "@
            + a,
{
    let m = service_plan(services);
    let rules = services@[a].depends_on.rules();
    assert(rule_names(rules) =~= seq![a]);
    assert(services@.contains_key(a));
    assert(m[a] =~= seq![a]);
    assert(m[a][0] == a);
    assert(needs(m, a, a));
    let ring = seq![a];
    assert(is_chain(m, ring));
    assert(is_ring(m, ring));
    assert forall|x: Seq<char>, y: Seq<char>| #[trigger] needs(m, x, y) implies m.contains_key(
        y,
    ) by {
        assert(services@.contains_key(x));
        assert(m[x].contains(y));
        let i = m[x].index_of(y);
        assert(services@.contains_key(a));
    }
    let s = set![a];
    assert(awaits(m, s, a));
    assert(waiting(m, s));
    assert(stuck(m, a));
    assert(seq![a].drop_last() =~= Seq::<Seq<char>>::empty());
    reveal_with_fuel(stuck_names, 2);
    assert(stuck_names(seq![a], m) =~= seq![a]);
    assert(joined(seq![a], ", "@) == a);
}

} // verus!
