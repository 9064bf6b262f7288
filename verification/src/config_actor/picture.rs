//! Readiness and quiescence of the services of a configuration.
use vstd::prelude::*;
use crate::config::config_value::{static_value, ConfigValue};
use crate::config::deps::{pair_views, rule_names, DependencyConfig, DependencyRule};
use crate::config::health::option_given;
use crate::config::restart::RestartConfig;
use crate::config::service::{RawServiceConfig, ServiceConfig};
use crate::deps::{condition_met, is_condition_met, service_plan};
use crate::name_map::NameMap;
use crate::order::{circular, complete, is_order, needs};
use crate::state::{ServiceState, ServiceStatus};
use crate::text::views;

verus! {

/// What readiness and quiescence depend on.
pub struct Picture {
    /// The services as they are configured.
    pub configs: NameMap<RawServiceConfig>,
    /// The computed configurations.
    pub resolved: Map<Seq<char>, ServiceConfig>,
    /// The states.
    pub states: Map<Seq<char>, ServiceState>,
}

impl Picture {
    /// The restart settings that are known of a service.
    pub open spec fn rule(self, a: Seq<char>) -> Option<RestartConfig> {
        if self.resolved.contains_key(a) {
            Some(self.resolved[a].restart)
        } else if self.configs@.contains_key(a) {
            static_value(self.configs@[a].restart)
        } else {
            None
        }
    }

    /// Whether a service is started again after an exit with this code. Settings that are not
    /// known count as `no`.
    pub open spec fn restarts(self, a: Seq<char>, exit_code: Option<i32>) -> bool {
        self.rule(a) matches Some(r) && r.the_policy().restarts_after(exit_code)
    }

    /// Whether what is asked of `d` holds.
    pub open spec fn satisfied(self, d: Seq<char>, rule: DependencyRule) -> bool {
        self.states.contains_key(d) && condition_met(
            self.states[d],
            rule,
            self.restarts(d, self.states[d].exit_code),
        )
    }

    /// Whether `d` is still about to change by itself: it waits, starts or stops, or it ended by
    /// itself and is started again.
    pub open spec fn settling(self, d: Seq<char>) -> bool {
        self.states.contains_key(d) && {
            let s = self.states[d];
            ||| s.status == ServiceStatus::Starting
            ||| s.status == ServiceStatus::Waiting
            ||| s.status == ServiceStatus::Stopping
            ||| (s.status == ServiceStatus::Exited || s.status == ServiceStatus::Killed || s.status
                == ServiceStatus::Failed) && self.configs@.contains_key(d) && self.restarts(
                d,
                s.exit_code,
            )
        }
    }

    /// Whether some rule is not satisfied.
    pub open spec fn some_unmet(self, rules: Seq<(Seq<char>, DependencyRule)>) -> bool {
        exists|k: int|
            0 <= k < rules.len() && !self.satisfied((#[trigger] rules[k]).0, rules[k].1)
    }

    /// Whether none of the dependencies with an unsatisfied rule is about to change by itself.
    pub open spec fn unmet_stable(self, rules: Seq<(Seq<char>, DependencyRule)>) -> bool {
        forall|k: int|
            0 <= k < rules.len() && !self.satisfied((#[trigger] rules[k]).0, rules[k].1)
                ==> !self.settling(rules[k].0)
    }

    /// Whether a service is ready: it runs, and its health is known if it is checked; it ended,
    /// but not on request; it was skipped; or it waits for dependencies that are not about to
    /// change by themselves.
    pub open spec fn ready(self, a: Seq<char>) -> bool {
        self.states.contains_key(a) ==> {
            let status = self.states[a].status;
            if status.running() {
                self.configs@.contains_key(a) && option_given(self.configs@[a].healthcheck)
                    ==> status != ServiceStatus::Running
            } else if status == ServiceStatus::Waiting {
                self.configs@.contains_key(a) && self.some_unmet(
                    self.configs@[a].depends_on.rules(),
                ) && self.unmet_stable(self.configs@[a].depends_on.rules())
            } else {
                status == ServiceStatus::Exited || status == ServiceStatus::Failed || status
                    == ServiceStatus::Killed || status == ServiceStatus::Skipped
            }
        }
    }

    /// Whether all services are ready.
    #[verifier::opaque]
    pub open spec fn all_ready(self) -> bool {
        forall|a: Seq<char>| self.configs@.contains_key(a) ==> #[trigger] self.ready(a)
    }

    /// Whether `d` is marked as settled.
    pub open spec fn marked(settled: Map<Seq<char>, bool>, d: Seq<char>) -> bool {
        settled.contains_key(d) && settled[d]
    }

    /// Whether all dependencies with an unsatisfied rule are settled.
    pub open spec fn unmet_settled(
        self,
        rules: Seq<(Seq<char>, DependencyRule)>,
        settled: Map<Seq<char>, bool>,
    ) -> bool {
        forall|k: int|
            0 <= k < rules.len() && !self.satisfied((#[trigger] rules[k]).0, rules[k].1)
                ==> Self::marked(settled, rules[k].0)
    }

    /// Whether a rule can still come to hold, or holds.
    pub open spec fn reachable(
        self,
        d: Seq<char>,
        rule: DependencyRule,
        settled: Map<Seq<char>, bool>,
    ) -> bool {
        self.satisfied(d, rule) || (self.states.contains_key(d) && !(self.states[d].status
            == ServiceStatus::Skipped && !rule.allow_skipped) && !Self::marked(settled, d))
    }

    /// Whether all rules of a service can still come to hold.
    pub open spec fn satisfiable(self, a: Seq<char>, settled: Map<Seq<char>, bool>) -> bool {
        self.configs@.contains_key(a) && forall|k: int|
            0 <= k < self.configs@[a].depends_on.rules().len() ==> self.reachable(
                (#[trigger] self.configs@[a].depends_on.rules()[k]).0,
                self.configs@[a].depends_on.rules()[k].1,
                settled,
            )
    }

    /// Whether a service is settled, given which services it depends on are: it was skipped; it
    /// waits for what will never come; or it ended and is not started again, or could not be.
    pub open spec fn settles(self, a: Seq<char>, settled: Map<Seq<char>, bool>) -> bool {
        self.states.contains_key(a) ==> {
            let s = self.states[a];
            if s.status == ServiceStatus::Skipped {
                true
            } else if s.status == ServiceStatus::Waiting {
                self.configs@.contains_key(a) && self.some_unmet(
                    self.configs@[a].depends_on.rules(),
                ) && self.unmet_settled(self.configs@[a].depends_on.rules(), settled)
            } else {
                s.status.ended() && (!self.restarts(a, s.exit_code) || !self.satisfiable(
                    a,
                    settled,
                ))
            }
        }
    }

    /// Whether the map says of each service whether it is settled.
    pub open spec fn is_settlement(self, settled: Map<Seq<char>, bool>) -> bool {
        &&& forall|a: Seq<char>| #[trigger]
            settled.contains_key(a) <==> self.configs@.contains_key(a)
        &&& forall|a: Seq<char>|
            self.configs@.contains_key(a) ==> settled[a] == #[trigger] self.settles(a, settled)
    }

    /// Whether nothing more will change: the services can be ordered, and all are settled.
    #[verifier::opaque]
    pub open spec fn quiet(self) -> bool {
        &&& complete(service_plan(self.configs))
        &&& !circular(service_plan(self.configs))
        &&& exists|settled: Map<Seq<char>, bool>| #[trigger]
            self.is_settlement(settled) && forall|a: Seq<char>|
                self.configs@.contains_key(a) ==> #[trigger] settled[a]
    }
}

/// The services, their computed configurations and their states.
pub struct Board<'a> {
    pub configs: &'a NameMap<RawServiceConfig>,
    pub resolved: &'a NameMap<ServiceConfig>,
    pub states: &'a NameMap<ServiceState>,
}

impl<'a> Board<'a> {
    /// What readiness and quiescence depend on.
    pub open spec fn picture(self) -> Picture {
        Picture { configs: *self.configs, resolved: self.resolved@, states: self.states@ }
    }

    /// The restart settings that are known of a service.
    fn rule(&self, a: &str) -> (r: Option<&RestartConfig>)
        ensures
            match r {
                Some(c) => self.picture().rule(a@) == Some(*c),
                None => self.picture().rule(a@) is None,
            },
    {
        match self.resolved.get(a) {
            Some(rc) => Some(&rc.restart),
            None => match self.configs.get(a) {
                Some(raw) => match &raw.restart {
                    ConfigValue::Static(c) => Some(c),
                    ConfigValue::Dynamic(_) => None,
                },
                None => None,
            },
        }
    }

    /// Whether a service is started again after an exit with this code.
    pub fn would_restart(&self, a: &str, exit_code: Option<i32>) -> (r: bool)
        ensures
            r == self.picture().restarts(a@, exit_code),
    {
        match self.rule(a) {
            Some(c) => c.should_restart_on_exit(exit_code),
            None => false,
        }
    }

    /// Whether what is asked of a dependency holds.
    pub fn is_condition_satisfied_sync(&self, dep_name: &str, dep_config: &DependencyConfig) -> (r:
        bool)
        ensures
            r == self.picture().satisfied(dep_name@, dep_config@),
    {
        match self.states.get(dep_name) {
            Some(state) => is_condition_met(state, dep_config, self.rule(dep_name)),
            None => false,
        }
    }

    /// Whether a dependency is about to change by itself.
    fn is_settling(&self, d: &str) -> (r: bool)
        ensures
            r == self.picture().settling(d@),
    {
        match self.states.get(d) {
            Some(s) => match s.status {
                ServiceStatus::Starting | ServiceStatus::Waiting | ServiceStatus::Stopping => true,
                ServiceStatus::Exited | ServiceStatus::Killed | ServiceStatus::Failed =>
                    self.configs.contains_key(d) && self.would_restart(d, s.exit_code),
                _ => false,
            },
            None => false,
        }
    }

    /// Whether a service waits for dependencies none of which is about to change by itself.
    fn waits_deferred(&self, raw: &RawServiceConfig) -> (r: bool)
        ensures
            r == (self.picture().some_unmet(raw.depends_on.rules())
                && self.picture().unmet_stable(raw.depends_on.rules())),
    {
        let pairs = raw.depends_on.iter();
        let ghost rules = raw.depends_on.rules();
        let ghost p = self.picture();
        let mut has_unmet: bool = false;
        let mut k: usize = 0;
        while k < pairs.len()
            invariant
                k <= pairs@.len(),
                pair_views(pairs@) == rules,
                p == self.picture(),
                has_unmet == exists|q: int|
                    0 <= q < k && !p.satisfied((#[trigger] rules[q]).0, rules[q].1),
                forall|q: int|
                    0 <= q < k && !p.satisfied((#[trigger] rules[q]).0, rules[q].1) ==> !p.settling(
                        rules[q].0,
                    ),
                rules == raw.depends_on.rules(),
            decreases pairs@.len() - k,
        {
            assert(rules[k as int] == (pairs@[k as int].0@, pairs@[k as int].1@));
            let name = pairs[k].0.as_str();
            if !self.is_condition_satisfied_sync(name, &pairs[k].1) {
                if self.is_settling(name) {
                    return false;
                }
                has_unmet = true;
            }
            k += 1;
        }
        has_unmet
    }

    /// Whether a service is ready.
    pub fn is_service_ready(&self, a: &str) -> (r: bool)
        ensures
            r == self.picture().ready(a@),
    {
        let status = match self.states.get(a) {
            Some(s) => s.status,
            None => {
                return true;
            },
        };
        if status.is_running() {
            return match self.configs.get(a) {
                Some(raw) => !raw.has_healthcheck() || status != ServiceStatus::Running,
                None => true,
            };
        }
        match status {
            ServiceStatus::Waiting => match self.configs.get(a) {
                Some(raw) => self.waits_deferred(raw),
                None => false,
            },
            ServiceStatus::Exited
            | ServiceStatus::Failed
            | ServiceStatus::Killed
            | ServiceStatus::Skipped => true,
            _ => false,
        }
    }

    /// Whether all services are ready.
    pub fn compute_ready(&self) -> (r: bool)
        ensures
            r == self.picture().all_ready(),
    {
        let n: usize = self.configs.len();
        let ghost p = self.picture();
        let ghost keys = self.configs.keys();
        let mut i: usize = 0;
        while i < n
            invariant
                i <= n,
                n == keys.len(),
                keys == self.configs.keys(),
                p == self.picture(),
                forall|j: int| 0 <= j < i ==> p.ready(#[trigger] keys[j]),
            decreases n - i,
        {
            if !self.is_service_ready(self.configs.key_at(i).as_str()) {
                assert(keys.contains(keys[i as int]));
                assert(self.configs@.contains_key(keys[i as int]));
                reveal(Picture::all_ready);
                return false;
            }
            i += 1;
        }
        reveal(Picture::all_ready);
        assert forall|a: Seq<char>| p.configs@.contains_key(a) implies #[trigger] p.ready(a) by {
            assert(keys.contains(a));
            assert(keys[keys.index_of(a)] == a);
        }
        true
    }

    /// Whether a service is marked as settled.
    fn is_marked(settled: &NameMap<bool>, d: &str) -> (r: bool)
        ensures
            r == Picture::marked(settled@, d@),
    {
        match settled.get(d) {
            Some(b) => *b,
            None => false,
        }
    }

    /// Whether a service waits for what will never come.
    fn waits_in_vain(&self, raw: &RawServiceConfig, settled: &NameMap<bool>) -> (r: bool)
        ensures
            r == (self.picture().some_unmet(raw.depends_on.rules())
                && self.picture().unmet_settled(raw.depends_on.rules(), settled@)),
    {
        let pairs = raw.depends_on.iter();
        let ghost rules = raw.depends_on.rules();
        let ghost p = self.picture();
        let mut has_unmet: bool = false;
        let mut k: usize = 0;
        while k < pairs.len()
            invariant
                k <= pairs@.len(),
                pair_views(pairs@) == rules,
                p == self.picture(),
                has_unmet == exists|q: int|
                    0 <= q < k && !p.satisfied((#[trigger] rules[q]).0, rules[q].1),
                forall|q: int|
                    0 <= q < k && !p.satisfied((#[trigger] rules[q]).0, rules[q].1)
                        ==> Picture::marked(settled@, rules[q].0),
                rules == raw.depends_on.rules(),
            decreases pairs@.len() - k,
        {
            assert(rules[k as int] == (pairs@[k as int].0@, pairs@[k as int].1@));
            let name = pairs[k].0.as_str();
            if !self.is_condition_satisfied_sync(name, &pairs[k].1) {
                if !Self::is_marked(settled, name) {
                    return false;
                }
                has_unmet = true;
            }
            k += 1;
        }
        has_unmet
    }

    /// Whether all rules of a service can still come to hold.
    pub fn are_deps_satisfiable(&self, a: &str, settled: &NameMap<bool>) -> (r: bool)
        ensures
            r == self.picture().satisfiable(a@, settled@),
    {
        let raw = match self.configs.get(a) {
            Some(raw) => raw,
            None => {
                return false;
            },
        };
        let pairs = raw.depends_on.iter();
        let ghost rules = raw.depends_on.rules();
        let ghost p = self.picture();
        let mut k: usize = 0;
        while k < pairs.len()
            invariant
                k <= pairs@.len(),
                pair_views(pairs@) == rules,
                p == self.picture(),
                p.configs@.contains_key(a@),
                rules == p.configs@[a@].depends_on.rules(),
                forall|q: int|
                    0 <= q < k ==> p.reachable((#[trigger] rules[q]).0, rules[q].1, settled@),
            decreases pairs@.len() - k,
        {
            assert(rules[k as int] == (pairs@[k as int].0@, pairs@[k as int].1@));
            let name = pairs[k].0.as_str();
            if !self.is_condition_satisfied_sync(name, &pairs[k].1) {
                match self.states.get(name) {
                    Some(s) => {
                        if s.status == ServiceStatus::Skipped && !pairs[k].1.allow_skipped {
                            return false;
                        }
                    },
                    None => {
                        return false;
                    },
                }
                if Self::is_marked(settled, name) {
                    return false;
                }
            }
            k += 1;
        }
        true
    }

    /// Whether a service is settled, given which services it depends on are.
    pub fn is_service_settled(&self, a: &str, settled: &NameMap<bool>) -> (r: bool)
        ensures
            r == self.picture().settles(a@, settled@),
    {
        let state = match self.states.get(a) {
            Some(s) => s,
            None => {
                return true;
            },
        };
        if state.status == ServiceStatus::Skipped {
            return true;
        }
        if state.status == ServiceStatus::Waiting {
            return match self.configs.get(a) {
                Some(raw) => self.waits_in_vain(raw, settled),
                None => false,
            };
        }
        if state.status.is_active() {
            return false;
        }
        if !self.would_restart(a, state.exit_code) {
            return true;
        }
        !self.are_deps_satisfiable(a, settled)
    }

    /// Whether nothing more will change, given an order of the services.
    pub fn all_settled(&self, order: &Vec<String>) -> (r: bool)
        requires
            is_order(service_plan(*self.configs), views(order@)),
            complete(service_plan(*self.configs)),
            !circular(service_plan(*self.configs)),
        ensures
            r == self.picture().quiet(),
    {
        reveal(Picture::quiet);
        let ghost p = self.picture();
        let ghost names = views(order@);
        let mut settled: NameMap<bool> = NameMap::new();
        let mut all: bool = true;
        let mut i: usize = 0;
        while i < order.len()
            invariant
                i <= order@.len(),
                p == self.picture(),
                names == views(order@),
                is_order(service_plan(p.configs), names),
                forall|a: Seq<char>| #[trigger]
                    settled@.contains_key(a) <==> names.take(i as int).contains(a),
                forall|j: int|
                    0 <= j < i ==> settled@[#[trigger] names[j]] == p.settles(names[j], settled@),
                all == forall|j: int| 0 <= j < i ==> #[trigger] settled@[names[j]],
            decreases order@.len() - i,
        {
            let ghost before = settled@;
            let now = self.is_service_settled(order[i].as_str(), &settled);
            let ghost a = names[i as int];
            settled.insert(order[i].clone(), now);
            proof {
                assert(!names.take(i as int).contains(a)) by {
                    if names.take(i as int).contains(a) {
                        let j = names.take(i as int).index_of(a);
                        assert(names[j] == names[i as int]);
                    }
                }
                assert forall|b: Seq<char>| #[trigger] settled@.contains_key(b) <==> names.take(
                    i + 1,
                ).contains(b) by {
                    let t0 = names.take(i as int);
                    let t1 = names.take(i + 1);
                    assert(before.contains_key(b) <==> t0.contains(b));
                    if t0.contains(b) {
                        assert(t1[t0.index_of(b)] == b);
                    }
                    if b == a {
                        assert(t1[i as int] == b);
                    }
                    if t1.contains(b) && b != a {
                        assert(t0[t1.index_of(b)] == b);
                    }
                }
                assert forall|j: int| 0 <= j < i + 1 implies settled@[#[trigger] names[j]]
                    == p.settles(names[j], settled@) by {
                    lemma_settles_local(p, names, j, before, settled@, i as int);
                    if j < i {
                        assert(names[j] != a);
                    }
                }
                assert forall|j: int| 0 <= j < i implies settled@[#[trigger] names[j]]
                    == before[names[j]] by {
                    assert(names[j] != a);
                }
                assert(settled@[names[i as int]] == now);
                if all && now {
                    assert forall|j: int| 0 <= j < i + 1 implies #[trigger] settled@[names[j]] by {
                        if j < i {
                            assert(settled@[names[j]] == before[names[j]]);
                        }
                    }
                } else if !all {
                    let j = choose|j: int| 0 <= j < i && !(#[trigger] before[names[j]]);
                    assert(!settled@[names[j]]);
                } else {
                    assert(!settled@[names[i as int]]);
                }
            }
            all = all && now;
            i += 1;
        }
        proof {
            assert(names.take(names.len() as int) == names);
            assert forall|a: Seq<char>| #[trigger] settled@.contains_key(a)
                <==> p.configs@.contains_key(a) by {
                assert(names.contains(a) <==> service_plan(p.configs).contains_key(a));
            }
            assert forall|a: Seq<char>| p.configs@.contains_key(a) implies settled@[a]
                == #[trigger] p.settles(a, settled@) by {
                assert(names.contains(a));
                assert(names[names.index_of(a)] == a);
            }
            assert(p.is_settlement(settled@));
            if all {
                assert forall|a: Seq<char>| p.configs@.contains_key(a) implies #[trigger] settled@[a] by {
                    assert(names.contains(a));
                    assert(names[names.index_of(a)] == a);
                }
            } else {
                let j = choose|j: int| 0 <= j < names.len() && !(#[trigger] settled@[names[j]]);
                if p.quiet() {
                    let other = choose|m: Map<Seq<char>, bool>| #[trigger]
                        p.is_settlement(m) && forall|a: Seq<char>|
                            p.configs@.contains_key(a) ==> #[trigger] m[a];
                    lemma_settlement_unique(p, names, settled@, other, j);
                    assert(names.contains(names[j]));
                    assert(p.configs@.contains_key(names[j]));
                    assert(other[names[j]]);
                }
            }
        }
        all
    }
}

/// The names of the rules of a service are what it needs.
proof fn lemma_rule_needed(p: Picture, a: Seq<char>, k: int)
    requires
        p.configs@.contains_key(a),
        0 <= k < p.configs@[a].depends_on.rules().len(),
    ensures
        needs(service_plan(p.configs), a, p.configs@[a].depends_on.rules()[k].0),
{
    let rules = p.configs@[a].depends_on.rules();
    assert(rule_names(rules)[k] == rules[k].0);
}

/// Two marks that agree on what a service needs agree on whether it is settled.
proof fn lemma_settles_agree(
    p: Picture,
    a: Seq<char>,
    one: Map<Seq<char>, bool>,
    two: Map<Seq<char>, bool>,
)
    requires
        forall|b: Seq<char>| #[trigger]
            needs(service_plan(p.configs), a, b) ==> Picture::marked(one, b) == Picture::marked(
                two,
                b,
            ),
    ensures
        p.settles(a, one) == p.settles(a, two),
{
    if p.configs@.contains_key(a) {
        let rules = p.configs@[a].depends_on.rules();
        assert forall|k: int| 0 <= k < rules.len() implies Picture::marked(
            one,
            (#[trigger] rules[k]).0,
        ) == Picture::marked(two, rules[k].0) by {
            lemma_rule_needed(p, a, k);
        }
        if p.unmet_settled(rules, one) {
            assert(p.unmet_settled(rules, two));
        }
        if p.satisfiable(a, one) {
            assert forall|k: int| 0 <= k < rules.len() implies p.reachable(
                (#[trigger] rules[k]).0,
                rules[k].1,
                two,
            ) by {
                assert(p.reachable(rules[k].0, rules[k].1, one));
            }
        }
        if p.satisfiable(a, two) {
            assert forall|k: int| 0 <= k < rules.len() implies p.reachable(
                (#[trigger] rules[k]).0,
                rules[k].1,
                one,
            ) by {
                assert(p.reachable(rules[k].0, rules[k].1, two));
            }
        }
    }
}

/// A mark on the name at place `i` does not change what holds of the names up to it.
proof fn lemma_settles_local(
    p: Picture,
    names: Seq<Seq<char>>,
    j: int,
    before: Map<Seq<char>, bool>,
    after: Map<Seq<char>, bool>,
    i: int,
)
    requires
        is_order(service_plan(p.configs), names),
        0 <= j <= i < names.len(),
        forall|b: Seq<char>| b != names[i] ==> (#[trigger] after.contains_key(b)
            <==> before.contains_key(b)) && after[b] == before[b],
    ensures
        p.settles(names[j], before) == p.settles(names[j], after),
{
    assert forall|b: Seq<char>| #[trigger]
        needs(service_plan(p.configs), names[j], b) implies Picture::marked(before, b)
        == Picture::marked(after, b) by {
        let q = choose|q: int| 0 <= q < j && names[q] == b;
        assert(names[q] != names[i]);
        assert(after.contains_key(b) <==> before.contains_key(b));
    }
    lemma_settles_agree(p, names[j], before, after);
}

/// There is one settlement only.
proof fn lemma_settlement_unique(
    p: Picture,
    names: Seq<Seq<char>>,
    one: Map<Seq<char>, bool>,
    two: Map<Seq<char>, bool>,
    j: int,
)
    requires
        is_order(service_plan(p.configs), names),
        p.is_settlement(one),
        p.is_settlement(two),
        0 <= j < names.len(),
    ensures
        one[names[j]] == two[names[j]],
    decreases j,
{
    let a = names[j];
    assert forall|b: Seq<char>| #[trigger]
        needs(service_plan(p.configs), a, b) implies Picture::marked(one, b) == Picture::marked(
        two,
        b,
    ) by {
        let q = choose|q: int| 0 <= q < j && names[q] == b;
        lemma_settlement_unique(p, names, one, two, q);
        assert(one.contains_key(b) <==> two.contains_key(b));
    }
    lemma_settles_agree(p, a, one, two);
    assert(names.contains(a));
    assert(p.configs@.contains_key(a));
    assert(one[a] == p.settles(a, one));
    assert(two[a] == p.settles(a, two));
}

/// Where all services are settled none of them starts, runs or stops.
pub proof fn law_quiet_means_idle(p: Picture, a: Seq<char>)
    requires
        p.quiet(),
        p.configs@.contains_key(a),
        p.states.contains_key(a),
    ensures
        !p.states[a].status.running(),
        p.states[a].status != ServiceStatus::Starting,
        p.states[a].status != ServiceStatus::Stopping,
{
    reveal(Picture::quiet);
    let settled = choose|m: Map<Seq<char>, bool>| #[trigger]
        p.is_settlement(m) && forall|a: Seq<char>| p.configs@.contains_key(a) ==> #[trigger] m[a];
    assert(settled[a] == p.settles(a, settled));
}

/// A service that starts, stops, or was stopped on request is not ready.
pub proof fn law_moving_not_ready(p: Picture, a: Seq<char>)
    requires
        p.states.contains_key(a),
        p.states[a].status == ServiceStatus::Starting || p.states[a].status
            == ServiceStatus::Stopping || p.states[a].status == ServiceStatus::Stopped,
    ensures
        !p.ready(a),
{
}

/// A service with a health check is not ready while its health is not known, and is ready once it
/// is found healthy or unhealthy. One without a health check is ready as soon as it runs.
pub proof fn law_checked_service_waits_for_its_health(
    board: Board,
    a: &str,
    raw: RawServiceConfig,
    state: ServiceState,
    ready: bool,
)
    requires
        call_ensures(Board::is_service_ready, (&board, a), ready),
        board.configs@.contains_key(a@),
        board.configs@[a@] == raw,
        board.states@.contains_key(a@),
        board.states@[a@] == state,
    ensures
        option_given(raw.healthcheck) && state.status == ServiceStatus::Running ==> !ready,
        !option_given(raw.healthcheck) && state.status == ServiceStatus::Running ==> ready,
        state.status == ServiceStatus::Healthy ==> ready,
        state.status == ServiceStatus::Unhealthy ==> ready,
{
}

/// A service that starts, stops or was stopped is not ready; one that exited, failed, was killed
/// or was skipped is, and so is one whose state is not known.
pub proof fn law_ended_service_is_ready(board: Board, a: &str, ready: bool)
    requires
        call_ensures(Board::is_service_ready, (&board, a), ready),
    ensures
        !board.states@.contains_key(a@) ==> ready,
        board.states@.contains_key(a@) ==> {
            let status = board.states@[a@].status;
            &&& status == ServiceStatus::Starting || status == ServiceStatus::Stopping || status
                == ServiceStatus::Stopped ==> !ready
            &&& status == ServiceStatus::Exited || status == ServiceStatus::Failed || status
                == ServiceStatus::Killed || status == ServiceStatus::Skipped ==> ready
        },
{
}

/// A service that waits is ready only if something that it asks for does not hold. It is not ready
/// while a dependency that keeps it waiting waits, starts or stops.
pub proof fn law_waiting_service_is_ready_when_stuck(
    board: Board,
    a: &str,
    k: int,
    met: bool,
    asked: DependencyConfig,
    d: &str,
    ready: bool,
)
    requires
        call_ensures(Board::is_service_ready, (&board, a), ready),
        board.configs@.contains_key(a@),
        board.states@.contains_key(a@),
        board.states@[a@].status == ServiceStatus::Waiting,
        0 <= k < board.configs@[a@].depends_on.rules().len(),
        board.configs@[a@].depends_on.rules()[k] == (d@, asked@),
        call_ensures(Board::is_condition_satisfied_sync, (&board, d, &asked), met),
    ensures
        board.configs@[a@].depends_on.rules().len() == 1 && met ==> !ready,
        !met && board.states@.contains_key(d@) ==> {
            let status = board.states@[d@].status;
            status == ServiceStatus::Waiting || status == ServiceStatus::Starting || status
                == ServiceStatus::Stopping ==> !ready
        },
        board.configs@[a@].depends_on.rules().len() == 1 && !met && !board.states@.contains_key(d@)
            ==> ready,
        board.configs@[a@].depends_on.rules().len() == 1 && !met && board.states@.contains_key(d@)
            ==> {
            let status = board.states@[d@].status;
            status == ServiceStatus::Running || status == ServiceStatus::Healthy || status
                == ServiceStatus::Unhealthy || status == ServiceStatus::Stopped || status
                == ServiceStatus::Skipped ==> ready
        },
{
    let p = board.picture();
    let rules = board.configs@[a@].depends_on.rules();
    assert(p.configs@[a@].depends_on.rules()[k] == rules[k]);
    assert(p.satisfied(rules[k].0, rules[k].1) == met);
    if rules.len() == 1 && !met {
        assert(p.some_unmet(rules));
    }
}

/// All services together are ready exactly if each of them is.
pub proof fn law_ready_means_each_is_ready(board: Board, a: &str, all: bool, one: bool)
    requires
        call_ensures(Board::compute_ready, (&board,), all),
        call_ensures(Board::is_service_ready, (&board, a), one),
        board.configs@.contains_key(a@),
    ensures
        all ==> one,
        board.configs.keys() == seq![a@] && one ==> all,
{
    reveal(Picture::all_ready);
    let p = board.picture();
    if board.configs.keys() == seq![a@] && one {
        assert forall|b: Seq<char>| p.configs@.contains_key(b) implies #[trigger] p.ready(b) by {
            assert(board.configs.keys().contains(b));
        }
    }
}

/// A service that starts, runs or stops is not settled; one that was skipped, or whose state is
/// not known, is; and one that ended is, if it is not started again.
pub proof fn law_ended_service_is_settled(
    board: Board,
    a: &str,
    settled: NameMap<bool>,
    code: Option<i32>,
    restarts: bool,
    r: bool,
)
    requires
        call_ensures(Board::is_service_settled, (&board, a, &settled), r),
        call_ensures(Board::would_restart, (&board, a, code), restarts),
        board.states@.contains_key(a@) ==> code == board.states@[a@].exit_code,
    ensures
        !board.states@.contains_key(a@) ==> r,
        board.states@.contains_key(a@) ==> match board.states@[a@].status {
            ServiceStatus::Starting => !r,
            ServiceStatus::Running => !r,
            ServiceStatus::Healthy => !r,
            ServiceStatus::Unhealthy => !r,
            ServiceStatus::Stopping => !r,
            ServiceStatus::Skipped => r,
            ServiceStatus::Waiting => true,
            _ => !restarts ==> r,
        },
{
}

/// A service that ended and would be started again is settled exactly if what it depends on rules
/// that out: a dependency that is not known, was skipped and must not be, or is settled itself
/// without meeting what is asked.
pub proof fn law_restart_can_be_ruled_out(
    board: Board,
    a: &str,
    settled: NameMap<bool>,
    d: &str,
    asked: DependencyConfig,
    met: bool,
    possible: bool,
    r: bool,
    k: int,
)
    requires
        call_ensures(Board::is_service_settled, (&board, a, &settled), r),
        call_ensures(Board::are_deps_satisfiable, (&board, a, &settled), possible),
        call_ensures(Board::is_condition_satisfied_sync, (&board, d, &asked), met),
        call_ensures(
            Board::would_restart,
            (&board, a, board.states@[a@].exit_code),
            true,
        ),
        board.configs@.contains_key(a@),
        board.states@.contains_key(a@),
        board.states@[a@].status == ServiceStatus::Stopped || board.states@[a@].status
            == ServiceStatus::Exited || board.states@[a@].status == ServiceStatus::Failed
            || board.states@[a@].status == ServiceStatus::Killed,
        0 <= k < board.configs@[a@].depends_on.rules().len(),
        board.configs@[a@].depends_on.rules()[k] == (d@, asked@),
    ensures
        r <==> !possible,
        !met && !board.states@.contains_key(d@) ==> !possible,
        !met && board.states@.contains_key(d@) && board.states@[d@].status == ServiceStatus::Skipped
            && !asked.allow_skipped ==> !possible,
        !met && settled@.contains_key(d@) && settled@[d@] ==> !possible,
        met && board.configs@[a@].depends_on.rules().len() == 1 ==> possible,
        board.configs@[a@].depends_on.rules().len() == 1 && !met && board.states@.contains_key(d@)
            && board.states@[d@].status != ServiceStatus::Skipped && !settled@.contains_key(d@)
            ==> possible,
{
    let p = board.picture();
    let rules = board.configs@[a@].depends_on.rules();
    assert(p.configs@[a@].depends_on.rules()[k] == rules[k]);
    assert(p.satisfied(rules[k].0, rules[k].1) == met);
    if rules.len() == 1 {
        assert(p.satisfiable(a@, settled@) == p.reachable(rules[k].0, rules[k].1, settled@));
    }
}

/// A service that waits is settled exactly if something that it asks for does not hold, and
/// everything of that kind is asked of a settled service.
pub proof fn law_vain_wait_is_settled(
    board: Board,
    a: &str,
    settled: NameMap<bool>,
    d: &str,
    asked: DependencyConfig,
    met: bool,
    r: bool,
    k: int,
)
    requires
        call_ensures(Board::is_service_settled, (&board, a, &settled), r),
        call_ensures(Board::is_condition_satisfied_sync, (&board, d, &asked), met),
        board.configs@.contains_key(a@),
        board.states@.contains_key(a@),
        board.states@[a@].status == ServiceStatus::Waiting,
        0 <= k < board.configs@[a@].depends_on.rules().len(),
        board.configs@[a@].depends_on.rules()[k] == (d@, asked@),
    ensures
        !met && (!settled@.contains_key(d@) || !settled@[d@]) ==> !r,
        board.configs@[a@].depends_on.rules().len() == 1 ==> (r <==> !met && settled@.contains_key(
            d@,
        ) && settled@[d@]),
{
    let p = board.picture();
    let rules = board.configs@[a@].depends_on.rules();
    assert(p.configs@[a@].depends_on.rules()[k] == rules[k]);
    assert(p.satisfied(rules[k].0, rules[k].1) == met);
    if rules.len() == 1 && !met {
        assert(p.some_unmet(rules));
    }
}

/// A service is started again as its computed restart settings say; without computed ones, as the
/// known ones do; and not at all where neither is known.
pub proof fn law_computed_settings_come_first(
    board: Board,
    a: &str,
    code: Option<i32>,
    r: bool,
    own: bool,
    known: bool,
)
    requires
        call_ensures(Board::would_restart, (&board, a, code), r),
        board.resolved@.contains_key(a@) ==> call_ensures(
            RestartConfig::should_restart_on_exit,
            (&board.resolved@[a@].restart, code),
            own,
        ),
        board.configs@.contains_key(a@) ==> (board.configs@[a@].restart matches ConfigValue::Static(
            c,
        ) ==> call_ensures(RestartConfig::should_restart_on_exit, (&c, code), known)),
    ensures
        board.resolved@.contains_key(a@) ==> r == own,
        !board.resolved@.contains_key(a@) && board.configs@.contains_key(a@) ==> (
        match board.configs@[a@].restart {
            ConfigValue::Static(_) => r == known,
            ConfigValue::Dynamic(_) => !r,
        }),
        !board.resolved@.contains_key(a@) && !board.configs@.contains_key(a@) ==> !r,
{
}

/// Nothing more will change where every service was skipped or ended and is not started again.
pub proof fn law_all_ended_is_quiet(p: Picture)
    requires
        complete(service_plan(p.configs)),
        !circular(service_plan(p.configs)),
        forall|a: Seq<char>| #[trigger]
            p.configs@.contains_key(a) && p.states.contains_key(a) ==> {
                let s = p.states[a];
                ||| s.status == ServiceStatus::Skipped
                ||| (s.status == ServiceStatus::Stopped || s.status == ServiceStatus::Exited
                    || s.status == ServiceStatus::Failed || s.status == ServiceStatus::Killed)
                    && !p.restarts(a, s.exit_code)
            },
    ensures
        p.quiet(),
{
    reveal(Picture::quiet);
    let settled = Map::new(|a: Seq<char>| p.configs@.contains_key(a), |a: Seq<char>| true);
    assert forall|a: Seq<char>| p.configs@.contains_key(a) implies settled[a]
        == #[trigger] p.settles(a, settled) by {
        assert(p.configs@.contains_key(a));
    }
    assert(p.is_settlement(settled));
}

} // verus!
