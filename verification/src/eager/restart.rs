//! Restart settings with a single policy.
use vstd::prelude::*;
use crate::deps::RestartRule;
use crate::text::views;

verus! {

/// When a service is started again after it exits.
#[derive(Debug, Clone, Copy, PartialEq, Eq, Structural)]
pub enum RestartPolicy {
    No,
    Always,
    OnFailure,
}

impl Default for RestartPolicy {
    fn default() -> (r: Self)
        ensures
            r == RestartPolicy::No,
    {
        RestartPolicy::No
    }
}

impl RestartPolicy {
    /// Whether the service is started again after an exit with this code; an unknown code
    /// counts as a failure.
    pub open spec fn restarts_after(self, exit_code: Option<i32>) -> bool {
        match self {
            RestartPolicy::No => false,
            RestartPolicy::Always => true,
            RestartPolicy::OnFailure => exit_code != Some(0i32),
        }
    }
}

/// A policy, or a policy with patterns of watched files.
#[derive(Debug)]
pub enum RestartConfig {
    Simple(RestartPolicy),
    Extended { policy: RestartPolicy, watch: Vec<String> },
}

impl Default for RestartConfig {
    fn default() -> (r: Self)
        ensures
            r == RestartConfig::Simple(RestartPolicy::No),
    {
        RestartConfig::Simple(RestartPolicy::No)
    }
}

impl RestartConfig {
    /// The policy.
    pub open spec fn the_policy(self) -> RestartPolicy {
        match self {
            RestartConfig::Simple(p) => p,
            RestartConfig::Extended { policy, .. } => policy,
        }
    }

    /// The patterns of watched files.
    pub open spec fn patterns(self) -> Seq<Seq<char>> {
        match self {
            RestartConfig::Simple(_) => Seq::empty(),
            RestartConfig::Extended { watch, .. } => views(watch@),
        }
    }

    /// The policy.
    pub fn policy(&self) -> (r: &RestartPolicy)
        ensures
            *r == self.the_policy(),
    {
        match self {
            RestartConfig::Simple(p) => p,
            RestartConfig::Extended { policy, .. } => policy,
        }
    }

    /// The patterns of watched files.
    pub fn watch_patterns(&self) -> (r: Vec<String>)
        ensures
            views(r@) == self.patterns(),
    {
        match self {
            RestartConfig::Simple(_) => {
                let r: Vec<String> = Vec::new();
                assert(views(r@) == Seq::<Seq<char>>::empty());
                r
            },
            RestartConfig::Extended { watch, .. } => {
                let r = watch.clone();
                assert(views(r@) == views(watch@));
                r
            },
        }
    }

    /// Whether files are watched.
    pub fn should_restart_on_file_change(&self) -> (r: bool)
        ensures
            r == (self.patterns().len() > 0),
    {
        match self {
            RestartConfig::Simple(_) => false,
            RestartConfig::Extended { watch, .. } => watch.len() > 0,
        }
    }

    /// Whether the service is started again after an exit with this code.
    pub fn should_restart_on_exit(&self, exit_code: Option<i32>) -> (r: bool)
        ensures
            r == self.the_policy().restarts_after(exit_code),
    {
        match self.policy() {
            RestartPolicy::No => false,
            RestartPolicy::Always => true,
            RestartPolicy::OnFailure => match exit_code {
                Some(c) => c != 0,
                None => true,
            },
        }
    }

    /// The message on watched files of a service that never restarts.
    pub open spec fn fault(self) -> Option<Seq<char>> {
        if self.patterns().len() > 0 && self.the_policy() == RestartPolicy::No {
            Some(
                "watch patterns require restart to be enabled (policy: always or on-failure)"@,
            )
        } else {
            None
        }
    }

    /// Files are watched only for services that restart.
    pub fn validate(&self) -> (r: Result<(), String>)
        ensures
            match r {
                Ok(_) => self.fault() is None,
                Err(e) => self.fault() == Some(e@),
            },
    {
        if self.should_restart_on_file_change() {
            match self.policy() {
                RestartPolicy::No => {
                    return Err(
                        "watch patterns require restart to be enabled (policy: always or on-failure)".to_owned(),
                    );
                },
                _ => {},
            }
        }
        Ok(())
    }
}

impl RestartRule for RestartConfig {
    open spec fn restarts(&self, exit_code: Option<i32>) -> bool {
        self.the_policy().restarts_after(exit_code)
    }

    fn restarts_on_exit(&self, exit_code: Option<i32>) -> (r: bool) {
        self.should_restart_on_exit(exit_code)
    }
}

/// `always` starts a service again after every exit, `on-failure` after every code but 0 and after
/// no code, and `no` after none; watched files change nothing about that.
pub proof fn law_restart_follows_the_policy(
    c: RestartConfig,
    code: Option<i32>,
    r: bool,
    valid: Result<(), String>,
)
    requires
        call_ensures(RestartConfig::should_restart_on_exit, (&c, code), r),
        call_ensures(RestartConfig::validate, (&c,), valid),
    ensures
        match c {
            RestartConfig::Simple(p) => {
                &&& p == RestartPolicy::Always ==> r
                &&& p == RestartPolicy::OnFailure ==> (r <==> code != Some(0i32))
                &&& p == RestartPolicy::No ==> !r
                &&& valid is Ok
            },
            RestartConfig::Extended { policy: p, watch } => {
                &&& p == RestartPolicy::Always ==> r
                &&& p == RestartPolicy::OnFailure ==> (r <==> code != Some(0i32))
                &&& p == RestartPolicy::No ==> !r
                &&& valid is Err <==> p == RestartPolicy::No && watch@.len() > 0
            },
        },
{
}

} // verus!
