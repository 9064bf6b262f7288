//! How the processes of a service are kept together and ended.
use vstd::prelude::*;
use vstd::string::*;
use crate::config::duration::Duration;

verus! {

/// How often the processes of a control group are killed at most.
pub const KILL_CGROUP_RETRIES: usize = 3;

/// How long to wait for the processes of a control group to go, in milliseconds.
pub const KILL_CGROUP_RETRY_DELAY_MS: u64 = 50;

/// How long to wait before a control group is removed again, in milliseconds.
pub const CLEANUP_RETRY_DELAY_MS: u64 = 50;

/// How the processes of a service are kept together.
#[derive(Debug)]
pub enum ContainmentStrategy {
    /// In a control group below a directory.
    CgroupV2 { kepler_root: String },
    /// In a process group.
    ProcessGroup,
}

/// Keeps the processes of services together.
#[derive(Debug)]
pub struct ContainmentManager {
    pub strategy: ContainmentStrategy,
}

/// How a service is ended by force.
#[derive(Debug, Clone, Copy, PartialEq, Eq, Structural)]
pub enum KillTarget {
    /// All processes of its control group.
    ControlGroup,
    /// The process and its descendants.
    ProcessTree(u32),
}

/// How processes that a former daemon left are ended.
#[derive(Debug, Clone, Copy, PartialEq, Eq, Structural)]
pub enum OrphanAction {
    /// There are none.
    Leave,
    /// All processes of the control group are ended.
    KillControlGroup,
    /// The process is ended.
    KillProcess(u32),
}

impl ContainmentManager {
    /// Control groups are used where their directory was found.
    pub fn detect(cgroup_root: Option<String>) -> (r: Self)
        ensures
            r.strategy == match cgroup_root {
                Some(kepler_root) => ContainmentStrategy::CgroupV2 { kepler_root },
                None => ContainmentStrategy::ProcessGroup,
            },
    {
        match cgroup_root {
            Some(kepler_root) => ContainmentManager {
                strategy: ContainmentStrategy::CgroupV2 { kepler_root },
            },
            None => ContainmentManager { strategy: ContainmentStrategy::ProcessGroup },
        }
    }

    /// Whether control groups are used.
    pub fn has_cgroup(&self) -> (r: bool)
        ensures
            r == (self.strategy is CgroupV2),
    {
        match self.strategy {
            ContainmentStrategy::CgroupV2 { .. } => true,
            ContainmentStrategy::ProcessGroup => false,
        }
    }

    /// The directory of the control groups, if they are used.
    pub fn cgroup_root(&self) -> (r: Option<&str>)
        ensures
            match r {
                Some(root) => self.strategy matches ContainmentStrategy::CgroupV2 { kepler_root }
                    && root@ == kepler_root@,
                None => self.strategy is ProcessGroup,
            },
    {
        match &self.strategy {
            ContainmentStrategy::CgroupV2 { kepler_root } => Some(kepler_root.as_str()),
            ContainmentStrategy::ProcessGroup => None,
        }
    }

    /// How a service with this process is ended by force.
    pub fn force_kill_target(&self, pid: u32) -> (r: KillTarget)
        ensures
            r == match self.strategy {
                ContainmentStrategy::CgroupV2 { .. } => KillTarget::ControlGroup,
                ContainmentStrategy::ProcessGroup => KillTarget::ProcessTree(pid),
            },
    {
        match self.strategy {
            ContainmentStrategy::CgroupV2 { .. } => KillTarget::ControlGroup,
            ContainmentStrategy::ProcessGroup => KillTarget::ProcessTree(pid),
        }
    }

    /// How processes of a service that a former daemon left are ended. With control groups it
    /// counts whether the group holds any; else whether the process that was noted still runs.
    pub fn orphan_action(&self, group_pids: usize, pid: Option<u32>, alive: bool) -> (r: OrphanAction)
        ensures
            r == match self.strategy {
                ContainmentStrategy::CgroupV2 { .. } => if group_pids > 0 {
                    OrphanAction::KillControlGroup
                } else {
                    OrphanAction::Leave
                },
                ContainmentStrategy::ProcessGroup => match pid {
                    Some(p) => if alive {
                        OrphanAction::KillProcess(p)
                    } else {
                        OrphanAction::Leave
                    },
                    None => OrphanAction::Leave,
                },
            },
    {
        match self.strategy {
            ContainmentStrategy::CgroupV2 { .. } => {
                if group_pids > 0 {
                    OrphanAction::KillControlGroup
                } else {
                    OrphanAction::Leave
                }
            },
            ContainmentStrategy::ProcessGroup => match pid {
                Some(p) => if alive {
                    OrphanAction::KillProcess(p)
                } else {
                    OrphanAction::Leave
                },
                None => OrphanAction::Leave,
            },
        }
    }
}

/// By how many seconds the noted start of a process and its start as the system has it may
/// differ.
pub const START_TOLERANCE_SECS: i64 = 5;

/// Whether a process that runs may be the one that was noted: their starts do not differ by more
/// than the tolerance, as far as both are known. Another process may have the number by now.
pub fn may_be_noted(noted_start: Option<i64>, actual_start: Option<i64>) -> (r: bool)
    ensures
        r == match (noted_start, actual_start) {
            (Some(a), Some(b)) => -START_TOLERANCE_SECS <= a - b <= START_TOLERANCE_SECS,
            _ => true,
        },
{
    match (noted_start, actual_start) {
        (Some(a), Some(b)) => {
            let apart: i128 = a as i128 - b as i128;
            -(START_TOLERANCE_SECS as i128) <= apart && apart <= START_TOLERANCE_SECS as i128
        },
        _ => true,
    }
}

/// What to do next to end the processes of a control group.
#[derive(Debug, Clone, Copy, PartialEq, Eq, Structural)]
pub enum KillAction {
    /// Kill all.
    Kill,
    /// Wait, then count what is left.
    WaitAndCount(Duration),
    /// Nothing more.
    Done,
}

/// The ending of the processes of a control group.
#[derive(Debug, Clone, Copy, PartialEq, Eq, Structural)]
pub struct CgroupKill {
    /// How often they were killed.
    pub attempts: usize,
}

impl CgroupKill {
    /// Whether another attempt is left.
    pub open spec fn well_formed(self) -> bool {
        self.attempts < KILL_CGROUP_RETRIES
    }

    /// The beginning: kill all.
    pub fn begin() -> (r: (CgroupKill, KillAction))
        ensures
            r.0.well_formed(),
            r.0.attempts == 0,
            r.1 == KillAction::Kill,
    {
        (CgroupKill { attempts: 0 }, KillAction::Kill)
    }

    /// After an attempt: if it failed nothing more is done.
    pub fn after_kill(&self, ok: bool) -> (r: KillAction)
        ensures
            r == if ok {
                KillAction::WaitAndCount(Duration { millis: 50 })
            } else {
                KillAction::Done
            },
    {
        if ok {
            KillAction::WaitAndCount(Duration::from_millis(KILL_CGROUP_RETRY_DELAY_MS))
        } else {
            KillAction::Done
        }
    }

    /// After counting: if processes are left they are killed again, up to the limit.
    pub fn after_count(&mut self, remaining: usize) -> (r: KillAction)
        requires
            old(self).well_formed(),
        ensures
            if remaining > 0 && old(self).attempts + 1 < KILL_CGROUP_RETRIES {
                r == KillAction::Kill && final(self).attempts == old(self).attempts + 1
                    && final(self).well_formed()
            } else {
                r == KillAction::Done && *final(self) == *old(self)
            },
            r == KillAction::Kill <==> remaining > 0 && old(self).attempts < 2,
    {
        if remaining == 0 || self.attempts + 1 >= KILL_CGROUP_RETRIES {
            return KillAction::Done;
        }
        self.attempts = self.attempts + 1;
        KillAction::Kill
    }
}

/// How the removal of a control group went.
#[derive(Debug, Clone, Copy, PartialEq, Eq, Structural)]
pub enum RemoveOutcome {
    Removed,
    /// Processes are left in it.
    Busy,
    Failed,
}

/// What to do next to remove the control group of a service.
#[derive(Debug, Clone, Copy, PartialEq, Eq, Structural)]
pub enum CleanupAction {
    /// Kill the processes, wait, and remove it again.
    KillAndRetry(Duration),
    Done,
}

/// After a removal: a group in which processes are left is emptied and removed once more.
pub fn after_remove(outcome: RemoveOutcome, retried: bool) -> (r: CleanupAction)
    ensures
        r == if outcome == RemoveOutcome::Busy && !retried {
            CleanupAction::KillAndRetry(Duration { millis: 50 })
        } else {
            CleanupAction::Done
        },
{
    if outcome == RemoveOutcome::Busy && !retried {
        CleanupAction::KillAndRetry(Duration::from_millis(CLEANUP_RETRY_DELAY_MS))
    } else {
        CleanupAction::Done
    }
}

/// Where control groups are used, a service is ended through its group, and what a former daemon
/// left is ended if the group holds anything; else the process is ended with its descendants, and
/// one that was left only if it was noted and still runs.
pub proof fn law_ends_through_the_group(
    root: Option<String>,
    m: ContainmentManager,
    uses: bool,
    pid: u32,
    target: KillTarget,
    group_pids: usize,
    noted: Option<u32>,
    alive: bool,
    action: OrphanAction,
)
    requires
        call_ensures(ContainmentManager::detect, (root,), m),
        call_ensures(ContainmentManager::has_cgroup, (&m,), uses),
        call_ensures(ContainmentManager::force_kill_target, (&m, pid), target),
        call_ensures(ContainmentManager::orphan_action, (&m, group_pids, noted, alive), action),
    ensures
        uses <==> root is Some,
        uses ==> target == KillTarget::ControlGroup,
        uses ==> action == if group_pids > 0 {
            OrphanAction::KillControlGroup
        } else {
            OrphanAction::Leave
        },
        !uses ==> target == KillTarget::ProcessTree(pid),
        !uses && noted is Some && alive ==> action == OrphanAction::KillProcess(noted->0),
        !uses && (noted is None || !alive) ==> action == OrphanAction::Leave,
{
}

/// A process may be the one that was noted if their starts are at most five seconds apart, either
/// way round, or one of them is not known.
pub proof fn law_starts_five_seconds_apart(
    a: i64,
    b: i64,
    r: bool,
    swapped: bool,
    unknown: bool,
    known: Option<i64>,
)
    requires
        call_ensures(may_be_noted, (Some(a), Some(b)), r),
        call_ensures(may_be_noted, (Some(b), Some(a)), swapped),
        call_ensures(may_be_noted, (None, known), unknown),
    ensures
        r <==> a - b <= 5 && b - a <= 5,
        swapped == r,
        unknown,
{
}

/// After a successful attempt, and before a group is removed again, fifty milliseconds pass; a
/// group is removed again only once, and only if processes are left.
pub proof fn law_waits_and_retries(
    kill: CgroupKill,
    ok: bool,
    next: KillAction,
    outcome: RemoveOutcome,
    retried: bool,
    action: CleanupAction,
)
    requires
        call_ensures(CgroupKill::after_kill, (&kill, ok), next),
        call_ensures(after_remove, (outcome, retried), action),
    ensures
        !ok ==> next == KillAction::Done,
        ok ==> (next matches KillAction::WaitAndCount(d) && d.millis == 50),
        outcome == RemoveOutcome::Busy && !retried ==> (
        action matches CleanupAction::KillAndRetry(d) && d.millis == 50),
        outcome != RemoveOutcome::Busy || retried ==> action == CleanupAction::Done,
{
}

/// Control groups lie below the directory that was found.
pub proof fn law_groups_below_the_directory(
    root: Option<String>,
    m: ContainmentManager,
    r: Option<&str>,
)
    requires
        call_ensures(ContainmentManager::detect, (root,), m),
        call_ensures(ContainmentManager::cgroup_root, (&m,), r),
    ensures
        root matches Some(d) ==> (r matches Some(t) && t@ == d@),
        root is None ==> r is None,
{
}

/// Processes of a control group are killed at most three times: those that are left are killed
/// again after the first and the second attempt, and not after the third.
pub proof fn law_three_attempts(kill: &mut CgroupKill, remaining: usize, r: KillAction)
    requires
        call_ensures(CgroupKill::after_count, (kill, remaining), r),
        old(kill).attempts < 3,
    ensures
        remaining == 0 ==> r == KillAction::Done,
        remaining > 0 && old(kill).attempts < 2 ==> r == KillAction::Kill && final(kill).attempts
            == old(kill).attempts + 1,
        remaining > 0 && old(kill).attempts == 2 ==> r == KillAction::Done,
{
}

} // verus!
