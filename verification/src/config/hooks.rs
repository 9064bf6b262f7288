//! Commands that run on occasions in the life of a service.
use vstd::prelude::*;
use crate::config::config_value::{collect_static, known_texts, static_texts, ConfigValue};
use crate::config::environment::{lemma_text_fields_cloned, text_fields, EnvironmentEntries};
use crate::config::logs::static_text;
use crate::config::resources::ResourceLimits;
use crate::text::views;

verus! {

/// What a script hook and a command hook have in common.
#[derive(Debug)]
pub struct HookCommon {
    pub user: ConfigValue<Option<String>>,
    pub groups: ConfigValue<Vec<ConfigValue<String>>>,
    pub working_dir: ConfigValue<Option<String>>,
    pub environment: ConfigValue<EnvironmentEntries>,
    pub env_file: ConfigValue<Option<String>>,
    /// The condition under which the hook runs.
    pub condition: ConfigValue<Option<String>>,
    /// The name under which the output of the hook is kept.
    pub output: Option<String>,
    pub limits: ConfigValue<Option<ResourceLimits>>,
}

impl Default for HookCommon {
    fn default() -> (r: Self)
        ensures
            r.user == ConfigValue::Static(None::<String>),
            r.groups matches ConfigValue::Static(g) && g@.len() == 0,
            r.working_dir == ConfigValue::Static(None::<String>),
            r.environment matches ConfigValue::Static(e) && e.0@.len() == 0,
            r.env_file == ConfigValue::Static(None::<String>),
            r.condition == ConfigValue::Static(None::<String>),
            r.output is None,
            r.limits == ConfigValue::Static(None::<ResourceLimits>),
    {
        HookCommon {
            user: ConfigValue::Static(None),
            groups: ConfigValue::Static(Vec::new()),
            working_dir: ConfigValue::Static(None),
            environment: ConfigValue::Static(EnvironmentEntries(Vec::new())),
            env_file: ConfigValue::Static(None),
            condition: ConfigValue::Static(None),
            output: None,
            limits: ConfigValue::Static(None),
        }
    }
}

impl Clone for HookCommon {
    fn clone(&self) -> (r: Self)
        ensures
            cloned(self.user, r.user),
            cloned(self.groups, r.groups),
            cloned(self.working_dir, r.working_dir),
            cloned(self.environment, r.environment),
            cloned(self.env_file, r.env_file),
            cloned(self.condition, r.condition),
            cloned(self.output, r.output),
            cloned(self.limits, r.limits),
    {
        HookCommon {
            user: self.user.clone(),
            groups: self.groups.clone(),
            working_dir: self.working_dir.clone(),
            environment: self.environment.clone(),
            env_file: self.env_file.clone(),
            condition: self.condition.clone(),
            output: self.output.clone(),
            limits: self.limits.clone(),
        }
    }
}

/// A hook: a script for a shell, or a command as a list of words.
#[derive(Debug)]
pub enum HookCommand {
    Script { run: ConfigValue<String>, common: HookCommon },
    Command { command: ConfigValue<Vec<ConfigValue<String>>>, common: HookCommon },
}

impl Clone for HookCommand {
    fn clone(&self) -> (r: Self)
        ensures
            match (*self, r) {
                (
                    HookCommand::Script { run: a, common: b },
                    HookCommand::Script { run: x, common: y },
                ) => cloned(a, x) && cloned(b, y),
                (
                    HookCommand::Command { command: a, common: b },
                    HookCommand::Command { command: x, common: y },
                ) => cloned(a, x) && cloned(b, y),
                _ => false,
            },
    {
        match self {
            HookCommand::Script { run, common } => HookCommand::Script {
                run: run.clone(),
                common: common.clone(),
            },
            HookCommand::Command { command, common } => HookCommand::Command {
                command: command.clone(),
                common: common.clone(),
            },
        }
    }
}

/// Hooks that run one after the other.
#[derive(Debug)]
pub struct HookList(pub Vec<HookCommand>);

impl Clone for HookList {
    fn clone(&self) -> (r: Self)
        ensures
            cloned(self.0, r.0),
    {
        HookList(self.0.clone())
    }
}

impl Default for HookList {
    fn default() -> (r: Self)
        ensures
            r.0@.len() == 0,
    {
        HookList(Vec::new())
    }
}

/// The known text of an optional text field.
fn known_text(v: &ConfigValue<Option<String>>) -> (r: Option<&str>)
    ensures
        match r {
            Some(s) => static_text(*v) == Some(s@),
            None => static_text(*v) is None,
        },
{
    match v {
        ConfigValue::Static(Some(s)) => Some(s.as_str()),
        _ => None,
    }
}

impl HookCommand {
    /// What the two kinds of hook have in common.
    pub open spec fn common_part(self) -> HookCommon {
        match self {
            HookCommand::Script { common, .. } => common,
            HookCommand::Command { common, .. } => common,
        }
    }

    /// A hook that runs a script.
    pub fn script(run: String) -> (r: Self)
        ensures
            r matches HookCommand::Script { run: s, common } && s == ConfigValue::Static(run)
                && common.user == ConfigValue::Static(None::<String>)
                && common.condition == ConfigValue::Static(None::<String>)
                && common.env_file == ConfigValue::Static(None::<String>)
                && common.working_dir == ConfigValue::Static(None::<String>)
                && common.limits == ConfigValue::Static(None::<ResourceLimits>)
                && common.output is None
                && (common.groups matches ConfigValue::Static(g) && g@.len() == 0)
                && (common.environment matches ConfigValue::Static(e) && e.0@.len() == 0),
    {
        HookCommand::Script { run: ConfigValue::Static(run), common: HookCommon::default() }
    }

    /// What the two kinds of hook have in common.
    pub fn common(&self) -> (r: &HookCommon)
        ensures
            *r == self.common_part(),
    {
        match self {
            HookCommand::Script { common, .. } => common,
            HookCommand::Command { common, .. } => common,
        }
    }

    /// What the two kinds of hook have in common, for changing it.
    pub fn common_mut(&mut self) -> (r: &mut HookCommon)
        ensures
            *r == old(self).common_part(),
            match *old(self) {
                HookCommand::Script { run, .. } => *final(self) == (HookCommand::Script {
                    run,
                    common: *final(r),
                }),
                HookCommand::Command { command, .. } => *final(self) == (HookCommand::Command {
                    command,
                    common: *final(r),
                }),
            },
    {
        match self {
            HookCommand::Script { common, .. } => common,
            HookCommand::Command { common, .. } => common,
        }
    }

    /// The known user.
    pub fn user(&self) -> (r: Option<&str>)
        ensures
            match r {
                Some(s) => static_text(self.common_part().user) == Some(s@),
                None => static_text(self.common_part().user) is None,
            },
    {
        known_text(&self.common().user)
    }

    /// The known groups.
    pub fn groups(&self) -> (r: Vec<String>)
        ensures
            views(r@) == static_texts(self.common_part().groups),
    {
        collect_static(&self.common().groups)
    }

    /// The known working directory.
    pub fn working_dir(&self) -> (r: Option<&str>)
        ensures
            match r {
                Some(s) => static_text(self.common_part().working_dir) == Some(s@),
                None => static_text(self.common_part().working_dir) is None,
            },
    {
        known_text(&self.common().working_dir)
    }

    /// The known environment variables.
    pub open spec fn known_environment(self) -> Seq<Seq<char>> {
        match self.common_part().environment {
            ConfigValue::Static(entries) => known_texts(entries.0@),
            ConfigValue::Dynamic(_) => seq![],
        }
    }

    /// The known environment variables.
    pub fn environment(&self) -> (r: Vec<String>)
        ensures
            views(r@) == self.known_environment(),
    {
        match &self.common().environment {
            ConfigValue::Static(entries) => {
                let mut out: Vec<String> = Vec::new();
                let items = &entries.0;
                let mut i: usize = 0;
                assert(views(out@) == Seq::<Seq<char>>::empty());
                while i < items.len()
                    invariant
                        i <= items@.len(),
                        views(out@) == known_texts(items@.take(i as int)),
                    decreases items@.len() - i,
                {
                    let ghost before = views(out@);
                    assert(items@.take(i + 1).drop_last() == items@.take(i as int));
                    match &items[i] {
                        ConfigValue::Static(s) => {
                            out.push(s.clone());
                            assert(views(out@) == before.push(s@));
                        },
                        ConfigValue::Dynamic(_) => {},
                    }
                    i += 1;
                }
                assert(items@.take(i as int) == items@);
                out
            },
            ConfigValue::Dynamic(_) => {
                let out: Vec<String> = Vec::new();
                assert(views(out@) == Seq::<Seq<char>>::empty());
                out
            },
        }
    }

    /// The known file of environment variables.
    pub fn env_file(&self) -> (r: Option<&str>)
        ensures
            match r {
                Some(s) => static_text(self.common_part().env_file) == Some(s@),
                None => static_text(self.common_part().env_file) is None,
            },
    {
        known_text(&self.common().env_file)
    }

    /// The known condition.
    pub fn condition(&self) -> (r: Option<&str>)
        ensures
            match r {
                Some(s) => static_text(self.common_part().condition) == Some(s@),
                None => static_text(self.common_part().condition) is None,
            },
    {
        known_text(&self.common().condition)
    }

    /// The name under which the output is kept.
    pub fn output(&self) -> (r: Option<&str>)
        ensures
            match r {
                Some(s) => crate::text::opt_view(self.common_part().output) == Some(s@),
                None => self.common_part().output is None,
            },
    {
        match &self.common().output {
            Some(s) => Some(s.as_str()),
            None => None,
        }
    }
}

/// Hooks for all services together.
#[derive(Debug)]
pub struct GlobalHooks {
    pub pre_start: Option<HookList>,
    pub post_start: Option<HookList>,
    pub pre_stop: Option<HookList>,
    pub post_stop: Option<HookList>,
    pub pre_restart: Option<HookList>,
    pub post_restart: Option<HookList>,
    pub pre_cleanup: Option<HookList>,
}

/// Hooks of one service.
#[derive(Debug)]
pub struct ServiceHooks {
    pub pre_start: Option<HookList>,
    pub post_start: Option<HookList>,
    pub pre_stop: Option<HookList>,
    pub post_stop: Option<HookList>,
    pub pre_restart: Option<HookList>,
    pub post_restart: Option<HookList>,
    pub post_exit: Option<HookList>,
    pub pre_cleanup: Option<HookList>,
    pub post_healthcheck_success: Option<HookList>,
    pub post_healthcheck_fail: Option<HookList>,
}

impl Clone for ServiceHooks {
    fn clone(&self) -> (r: Self)
        ensures
            cloned(self.pre_start, r.pre_start),
            cloned(self.post_start, r.post_start),
            cloned(self.pre_stop, r.pre_stop),
            cloned(self.post_stop, r.post_stop),
            cloned(self.pre_restart, r.pre_restart),
            cloned(self.post_restart, r.post_restart),
            cloned(self.post_exit, r.post_exit),
            cloned(self.pre_cleanup, r.pre_cleanup),
            cloned(self.post_healthcheck_success, r.post_healthcheck_success),
            cloned(self.post_healthcheck_fail, r.post_healthcheck_fail),
    {
        ServiceHooks {
            pre_start: self.pre_start.clone(),
            post_start: self.post_start.clone(),
            pre_stop: self.pre_stop.clone(),
            post_stop: self.post_stop.clone(),
            pre_restart: self.pre_restart.clone(),
            post_restart: self.post_restart.clone(),
            post_exit: self.post_exit.clone(),
            pre_cleanup: self.pre_cleanup.clone(),
            post_healthcheck_success: self.post_healthcheck_success.clone(),
            post_healthcheck_fail: self.post_healthcheck_fail.clone(),
        }
    }
}

impl GlobalHooks {
    /// All hook lists in a fixed order, for changing them.
    pub fn all_hooks_mut(&mut self) -> (r: Vec<&mut Option<HookList>>)
        ensures
            r@.len() == 7,
            *r@[0] == old(self).pre_start && *final(r@[0]) == final(self).pre_start,
            *r@[1] == old(self).post_start && *final(r@[1]) == final(self).post_start,
            *r@[2] == old(self).pre_stop && *final(r@[2]) == final(self).pre_stop,
            *r@[3] == old(self).post_stop && *final(r@[3]) == final(self).post_stop,
            *r@[4] == old(self).pre_restart && *final(r@[4]) == final(self).pre_restart,
            *r@[5] == old(self).post_restart && *final(r@[5]) == final(self).post_restart,
            *r@[6] == old(self).pre_cleanup && *final(r@[6]) == final(self).pre_cleanup,
    {
        let mut out: Vec<&mut Option<HookList>> = Vec::new();
        out.push(&mut self.pre_start);
        out.push(&mut self.post_start);
        out.push(&mut self.pre_stop);
        out.push(&mut self.post_stop);
        out.push(&mut self.pre_restart);
        out.push(&mut self.post_restart);
        out.push(&mut self.pre_cleanup);
        out
    }
}

impl ServiceHooks {
    /// All hook lists in a fixed order, for changing them.
    pub fn all_hooks_mut(&mut self) -> (r: Vec<&mut Option<HookList>>)
        ensures
            r@.len() == 10,
            *r@[0] == old(self).pre_start && *final(r@[0]) == final(self).pre_start,
            *r@[1] == old(self).post_start && *final(r@[1]) == final(self).post_start,
            *r@[2] == old(self).pre_stop && *final(r@[2]) == final(self).pre_stop,
            *r@[3] == old(self).post_stop && *final(r@[3]) == final(self).post_stop,
            *r@[4] == old(self).pre_restart && *final(r@[4]) == final(self).pre_restart,
            *r@[5] == old(self).post_restart && *final(r@[5]) == final(self).post_restart,
            *r@[6] == old(self).post_exit && *final(r@[6]) == final(self).post_exit,
            *r@[7] == old(self).pre_cleanup && *final(r@[7]) == final(self).pre_cleanup,
            *r@[8] == old(self).post_healthcheck_success && *final(r@[8])
                == final(self).post_healthcheck_success,
            *r@[9] == old(self).post_healthcheck_fail && *final(r@[9])
                == final(self).post_healthcheck_fail,
    {
        let mut out: Vec<&mut Option<HookList>> = Vec::new();
        out.push(&mut self.pre_start);
        out.push(&mut self.post_start);
        out.push(&mut self.pre_stop);
        out.push(&mut self.post_stop);
        out.push(&mut self.pre_restart);
        out.push(&mut self.post_restart);
        out.push(&mut self.post_exit);
        out.push(&mut self.pre_cleanup);
        out.push(&mut self.post_healthcheck_success);
        out.push(&mut self.post_healthcheck_fail);
        out
    }
}

// ---------------------------------------------------------------------------------------------
// Hooks that say the same
// ---------------------------------------------------------------------------------------------

/// Whether two fields have the same value, or are computed from the same.
pub open spec fn same_field<T>(a: ConfigValue<T>, b: ConfigValue<T>) -> bool {
    match (a, b) {
        (ConfigValue::Static(x), ConfigValue::Static(y)) => x == y,
        (ConfigValue::Dynamic(x), ConfigValue::Dynamic(y)) => x@ == y@,
        _ => false,
    }
}

/// Whether two lists of texts are the same, or are computed from the same.
pub open spec fn same_text_list(
    a: ConfigValue<Vec<ConfigValue<String>>>,
    b: ConfigValue<Vec<ConfigValue<String>>>,
) -> bool {
    match (a, b) {
        (ConfigValue::Static(x), ConfigValue::Static(y)) => text_fields(x@) == text_fields(y@),
        (ConfigValue::Dynamic(x), ConfigValue::Dynamic(y)) => x@ == y@,
        _ => false,
    }
}

/// Whether two sets of environment variables are the same, or are computed from the same.
pub open spec fn same_variables(
    a: ConfigValue<EnvironmentEntries>,
    b: ConfigValue<EnvironmentEntries>,
) -> bool {
    match (a, b) {
        (ConfigValue::Static(x), ConfigValue::Static(y)) => text_fields(x.0@) == text_fields(y.0@),
        (ConfigValue::Dynamic(x), ConfigValue::Dynamic(y)) => x@ == y@,
        _ => false,
    }
}

/// Whether two hooks run in the same way.
pub open spec fn same_common(a: HookCommon, b: HookCommon) -> bool {
    &&& same_field(a.user, b.user)
    &&& same_text_list(a.groups, b.groups)
    &&& same_field(a.working_dir, b.working_dir)
    &&& same_variables(a.environment, b.environment)
    &&& same_field(a.env_file, b.env_file)
    &&& same_field(a.condition, b.condition)
    &&& a.output == b.output
    &&& same_field(a.limits, b.limits)
}

/// Whether two hooks run the same script or the same command, in the same way.
pub open spec fn same_hook(a: HookCommand, b: HookCommand) -> bool {
    match (a, b) {
        (
            HookCommand::Script { run: x, common: c },
            HookCommand::Script { run: y, common: d },
        ) => same_field(x, y) && same_common(c, d),
        (
            HookCommand::Command { command: x, common: c },
            HookCommand::Command { command: y, common: d },
        ) => same_text_list(x, y) && same_common(c, d),
        _ => false,
    }
}

/// Whether two occasions have no hooks, or the same hooks in the same order.
pub open spec fn same_hook_list(a: Option<HookList>, b: Option<HookList>) -> bool {
    match (a, b) {
        (None, None) => true,
        (Some(x), Some(y)) => {
            &&& x.0@.len() == y.0@.len()
            &&& forall|i: int| 0 <= i < x.0@.len() ==> same_hook(#[trigger] x.0@[i], y.0@[i])
        },
        _ => false,
    }
}

/// Whether two services have no hooks, or the same hooks on each occasion.
pub open spec fn same_service_hooks(a: Option<ServiceHooks>, b: Option<ServiceHooks>) -> bool {
    match (a, b) {
        (None, None) => true,
        (Some(x), Some(y)) => {
            &&& same_hook_list(x.pre_start, y.pre_start)
            &&& same_hook_list(x.post_start, y.post_start)
            &&& same_hook_list(x.pre_stop, y.pre_stop)
            &&& same_hook_list(x.post_stop, y.post_stop)
            &&& same_hook_list(x.pre_restart, y.pre_restart)
            &&& same_hook_list(x.post_restart, y.post_restart)
            &&& same_hook_list(x.post_exit, y.post_exit)
            &&& same_hook_list(x.pre_cleanup, y.pre_cleanup)
            &&& same_hook_list(x.post_healthcheck_success, y.post_healthcheck_success)
            &&& same_hook_list(x.post_healthcheck_fail, y.post_healthcheck_fail)
        },
        _ => false,
    }
}

/// A copy of an optional text field says the same.
pub proof fn lemma_text_option_cloned(
    a: ConfigValue<Option<String>>,
    b: ConfigValue<Option<String>>,
)
    requires
        cloned(a, b),
    ensures
        same_field(a, b),
{
    if let (ConfigValue::Static(x), ConfigValue::Static(y)) = (a, b) {
        assert(cloned(x, y));
        lemma_optional_text_cloned(x, y);
    }
}

/// A copy of an optional text is the same text.
pub proof fn lemma_optional_text_cloned(a: Option<String>, b: Option<String>)
    requires
        cloned(a, b),
    ensures
        a == b,
{
    if let (Some(x), Some(y)) = (a, b) {
        assert(cloned(x, y));
    }
}

/// A copy of a list of texts says the same.
pub proof fn lemma_text_list_cloned(
    a: ConfigValue<Vec<ConfigValue<String>>>,
    b: ConfigValue<Vec<ConfigValue<String>>>,
)
    requires
        cloned(a, b),
    ensures
        same_text_list(a, b),
{
    if let (ConfigValue::Static(x), ConfigValue::Static(y)) = (a, b) {
        lemma_text_fields_cloned(x, y);
    }
}

/// A copy of what hooks have in common says the same.
proof fn lemma_common_cloned(a: HookCommon, b: HookCommon)
    requires
        cloned(a, b),
    ensures
        same_common(a, b),
{
    if a != b {
        lemma_text_option_cloned(a.user, b.user);
        lemma_text_list_cloned(a.groups, b.groups);
        lemma_text_option_cloned(a.working_dir, b.working_dir);
        if let (ConfigValue::Static(x), ConfigValue::Static(y)) = (a.environment, b.environment) {
            assert(cloned(x, y));
            assert(cloned(x.0, y.0));
            lemma_text_fields_cloned(x.0, y.0);
        }
        lemma_text_option_cloned(a.env_file, b.env_file);
        lemma_text_option_cloned(a.condition, b.condition);
        lemma_optional_text_cloned(a.output, b.output);
        if let (ConfigValue::Static(x), ConfigValue::Static(y)) = (a.limits, b.limits) {
            assert(cloned(x, y));
            if let (Some(v), Some(w)) = (x, y) {
                assert(cloned(v, w));
            }
        }
    }
}

/// A copy of a hook is the same hook.
pub proof fn lemma_hook_cloned(a: HookCommand, b: HookCommand)
    requires
        cloned(a, b),
    ensures
        same_hook(a, b),
{
    match (a, b) {
        (
            HookCommand::Script { run: x, common: c },
            HookCommand::Script { run: y, common: d },
        ) => {
            assert(cloned(x, y));
            if let (ConfigValue::Static(s), ConfigValue::Static(t)) = (x, y) {
                assert(cloned(s, t));
            }
            lemma_common_cloned(c, d);
        },
        (
            HookCommand::Command { command: x, common: c },
            HookCommand::Command { command: y, common: d },
        ) => {
            lemma_text_list_cloned(x, y);
            lemma_common_cloned(c, d);
        },
        _ => {},
    }
}

/// A copy of the hooks of an occasion are the same hooks.
proof fn lemma_hook_list_cloned(a: Option<HookList>, b: Option<HookList>)
    requires
        cloned(a, b),
    ensures
        same_hook_list(a, b),
{
    if let (Some(x), Some(y)) = (a, b) {
        assert(cloned(x, y));
        assert(cloned(x.0, y.0));
        assert forall|i: int| 0 <= i < x.0@.len() implies same_hook(
            #[trigger] x.0@[i],
            y.0@[i],
        ) by {
            assert(cloned(x.0@[i], y.0@[i]));
            lemma_hook_cloned(x.0@[i], y.0@[i]);
        }
    }
}

/// A copy of the hooks of a service are the same hooks, on each occasion.
pub proof fn law_copied_hooks_are_the_same(a: Option<ServiceHooks>, b: Option<ServiceHooks>)
    requires
        cloned(a, b),
    ensures
        same_service_hooks(a, b),
{
    if let (Some(x), Some(y)) = (a, b) {
        assert(cloned(x, y));
        lemma_hook_list_cloned(x.pre_start, y.pre_start);
        lemma_hook_list_cloned(x.post_start, y.post_start);
        lemma_hook_list_cloned(x.pre_stop, y.pre_stop);
        lemma_hook_list_cloned(x.post_stop, y.post_stop);
        lemma_hook_list_cloned(x.pre_restart, y.pre_restart);
        lemma_hook_list_cloned(x.post_restart, y.post_restart);
        lemma_hook_list_cloned(x.post_exit, y.post_exit);
        lemma_hook_list_cloned(x.pre_cleanup, y.pre_cleanup);
        lemma_hook_list_cloned(x.post_healthcheck_success, y.post_healthcheck_success);
        lemma_hook_list_cloned(x.post_healthcheck_fail, y.post_healthcheck_fail);
    }
}

/// What is known of a hook is what it is configured with, field by field; a field that is computed
/// is not known.
pub proof fn law_known_fields_of_a_hook(
    hook: HookCommand,
    common: HookCommon,
    user: Option<&str>,
    dir: Option<&str>,
    file: Option<&str>,
    condition: Option<&str>,
    output: Option<&str>,
)
    requires
        hook matches HookCommand::Script { common: c, .. } ==> c == common,
        hook matches HookCommand::Command { common: c, .. } ==> c == common,
        call_ensures(HookCommand::user, (&hook,), user),
        call_ensures(HookCommand::working_dir, (&hook,), dir),
        call_ensures(HookCommand::env_file, (&hook,), file),
        call_ensures(HookCommand::condition, (&hook,), condition),
        call_ensures(HookCommand::output, (&hook,), output),
    ensures
        common.user matches ConfigValue::Static(Some(s)) ==> (user matches Some(t) && t@ == s@),
        common.user is Dynamic || common.user == ConfigValue::Static(None::<String>) ==> user
            is None,
        common.working_dir matches ConfigValue::Static(Some(s)) ==> (dir matches Some(t) && t@
            == s@),
        common.working_dir is Dynamic || common.working_dir == ConfigValue::Static(None::<String>)
            ==> dir is None,
        common.env_file matches ConfigValue::Static(Some(s)) ==> (file matches Some(t) && t@ == s@),
        common.env_file is Dynamic || common.env_file == ConfigValue::Static(None::<String>)
            ==> file is None,
        common.condition matches ConfigValue::Static(Some(s)) ==> (condition matches Some(t) && t@
            == s@),
        common.condition is Dynamic || common.condition == ConfigValue::Static(None::<String>)
            ==> condition is None,
        common.output matches Some(s) ==> (output matches Some(t) && t@ == s@),
        common.output is None ==> output is None,
{
}

/// A hook of a script alone has the script and nothing else.
pub proof fn law_plain_script_hook(run: String, h: HookCommand, groups: Vec<String>, env: Vec<String>)
    requires
        call_ensures(HookCommand::script, (run,), h),
        call_ensures(HookCommand::groups, (&h,), groups),
        call_ensures(HookCommand::environment, (&h,), env),
    ensures
        h matches HookCommand::Script { run: r, common } && r == ConfigValue::Static(run)
            && common.output is None && common.condition == ConfigValue::Static(None::<String>),
        groups@.len() == 0,
        env@.len() == 0,
{
    assert(views(groups@).len() == groups@.len());
    assert(views(env@).len() == env@.len());
}

} // verus!
