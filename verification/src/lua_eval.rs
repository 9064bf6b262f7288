//! Scripts, what they can see, and the record of what was run.
use std::collections::VecDeque;
use vstd::prelude::*;
use vstd::utf8::*;
use crate::eager::expand::{load_env_file, readable_env};
use crate::called::{given, given2, given3, given4};
use crate::env::{read_from, texts};
use crate::lua_value::{LuaText, LuaValue};
use crate::name_map::NameMap;

verus! {

/// What a script can see of a service that another service depends on.
#[derive(Debug)]
pub struct DepInfo {
    pub status: String,
    pub exit_code: Option<i32>,
    pub initialized: bool,
    pub restart_count: u32,
    pub env: NameMap<String>,
}

impl Default for DepInfo {
    fn default() -> (r: Self)
        ensures
            r.status@.len() == 0,
            r.exit_code is None,
            !r.initialized,
            r.restart_count == 0,
            r.env.keys().len() == 0,
    {
        DepInfo {
            status: String::new(),
            exit_code: None,
            initialized: false,
            restart_count: 0,
            env: NameMap::new(),
        }
    }
}

/// What a script can see of the service, or of the hook, that it is run for.
#[derive(Debug)]
pub struct ServiceEvalContext {
    pub name: String,
    /// The environment before any file and any setting of the configuration.
    pub raw_env: NameMap<String>,
    /// The variables of the environment file.
    pub env_file: NameMap<String>,
    /// The environment as far as it is computed.
    pub env: NameMap<String>,
}

impl Default for ServiceEvalContext {
    fn default() -> (r: Self)
        ensures
            r.name@.len() == 0,
            r.raw_env.keys().len() == 0,
            r.env_file.keys().len() == 0,
            r.env.keys().len() == 0,
    {
        ServiceEvalContext {
            name: String::new(),
            raw_env: NameMap::new(),
            env_file: NameMap::new(),
            env: NameMap::new(),
        }
    }
}

/// What a script can see.
#[derive(Debug)]
pub struct EvalContext {
    pub service: Option<ServiceEvalContext>,
    pub hook: Option<ServiceEvalContext>,
    pub deps: NameMap<DepInfo>,
    /// The environment of the daemon.
    pub kepler_env: NameMap<String>,
    /// The variables of the environment file, where there is no service and no hook.
    pub env_file: NameMap<String>,
    /// The environment, where there is no service and no hook.
    pub env: NameMap<String>,
}

impl Default for EvalContext {
    fn default() -> (r: Self)
        ensures
            r.service is None,
            r.hook is None,
            r.deps.keys().len() == 0,
            r.kepler_env.keys().len() == 0,
            r.env_file.keys().len() == 0,
            r.env.keys().len() == 0,
    {
        EvalContext {
            service: None,
            hook: None,
            deps: NameMap::new(),
            kepler_env: NameMap::new(),
            env_file: NameMap::new(),
            env: NameMap::new(),
        }
    }
}

impl EvalContext {
    /// The environment that is being computed: the hook's, else the service's, else the general
    /// one.
    pub open spec fn active(self) -> NameMap<String> {
        match (self.hook, self.service) {
            (Some(h), _) => h.env,
            (None, Some(s)) => s.env,
            (None, None) => self.env,
        }
    }

    /// The variables of the environment file of what is being computed.
    pub open spec fn active_file(self) -> NameMap<String> {
        match (self.hook, self.service) {
            (Some(h), _) => h.env_file,
            (None, Some(s)) => s.env_file,
            (None, None) => self.env_file,
        }
    }

    /// The context with other variables in what is being computed.
    pub open spec fn with_active(self, file: NameMap<String>, env: NameMap<String>) -> EvalContext {
        match (self.hook, self.service) {
            (Some(h), _) => EvalContext {
                hook: Some(ServiceEvalContext { env_file: file, env: env, ..h }),
                ..self
            },
            (None, Some(s)) => EvalContext {
                service: Some(ServiceEvalContext { env_file: file, env: env, ..s }),
                ..self
            },
            (None, None) => EvalContext { env_file: file, env: env, ..self },
        }
    }

    /// The environment that is being computed.
    pub fn active_env(&self) -> (r: &NameMap<String>)
        ensures
            *r == self.active(),
    {
        match &self.hook {
            Some(h) => &h.env,
            None => match &self.service {
                Some(s) => &s.env,
                None => &self.env,
            },
        }
    }

    /// The environment that is being computed, for changing it.
    pub fn active_env_mut(&mut self) -> (r: &mut NameMap<String>)
        ensures
            *r == old(self).active(),
            *final(self) == old(self).with_active(old(self).active_file(), *final(r)),
    {
        match &mut self.hook {
            Some(h) => &mut h.env,
            None => match &mut self.service {
                Some(s) => &mut s.env,
                None => &mut self.env,
            },
        }
    }

    /// The variables of the environment file of what is being computed, for changing them.
    pub fn active_env_file_mut(&mut self) -> (r: &mut NameMap<String>)
        ensures
            *r == old(self).active_file(),
            *final(self) == old(self).with_active(*final(r), old(self).active()),
    {
        match &mut self.hook {
            Some(h) => &mut h.env_file,
            None => match &mut self.service {
                Some(s) => &mut s.env_file,
                None => &mut self.env_file,
            },
        }
    }
}

/// A value that a script can see.
#[derive(Debug)]
pub enum Slot {
    Nil,
    Flag(bool),
    Count(i64),
    Text(String),
    /// The environment that is being computed. It is one table, wherever it is seen.
    Active,
    Names(Vec<(String, Slot)>),
}

/// The model of a value that a script can see.
#[verifier::ext_equal]
pub enum Sight {
    Nil,
    Flag(bool),
    Count(int),
    Text(Seq<char>),
    Active,
    Names(Seq<(Seq<char>, Sight)>),
}

/// The model of a value that a script can see.
pub open spec fn sight(s: Slot) -> Sight
    decreases s,
{
    match s {
        Slot::Nil => Sight::Nil,
        Slot::Flag(b) => Sight::Flag(b),
        Slot::Count(n) => Sight::Count(n as int),
        Slot::Text(t) => Sight::Text(t@),
        Slot::Active => Sight::Active,
        Slot::Names(list) => Sight::Names(
            Seq::new(
                list@.len(),
                |i: int|
                    if 0 <= i < list@.len() {
                        (list@[i].0@, sight(list@[i].1))
                    } else {
                        (seq![], Sight::Nil)
                    },
            ),
        ),
    }
}

/// The models of a list of named values.
pub open spec fn sights(list: Seq<(String, Slot)>) -> Seq<(Seq<char>, Sight)> {
    list.map_values(|e: (String, Slot)| (e.0@, sight(e.1)))
}

/// The model of a list of named values in terms of the models of its parts.
proof fn lemma_sight_names(list: Vec<(String, Slot)>)
    ensures
        sight(Slot::Names(list)) == Sight::Names(sights(list@)),
{
    assert(sight(Slot::Names(list))->Names_0 =~= sights(list@));
}

/// Variables as a script sees them.
pub open spec fn seen_vars(m: NameMap<String>) -> Seq<(Seq<char>, Sight)> {
    Seq::new(m.keys().len(), |i: int| (m.keys()[i], Sight::Text(m.values()[i]@)))
}

/// A service or a hook as a script sees it; `active` says that its environment is the one that
/// is being computed.
pub open spec fn seen_service(s: ServiceEvalContext, active: bool) -> Sight {
    Sight::Names(
        seq![
            ("name"@, Sight::Text(s.name@)),
            ("raw_env"@, Sight::Names(seen_vars(s.raw_env))),
            ("env_file"@, Sight::Names(seen_vars(s.env_file))),
            ("env"@, if active { Sight::Active } else { Sight::Names(seen_vars(s.env)) }),
        ],
    )
}

/// A dependency as a script sees it.
pub open spec fn seen_dep(d: DepInfo) -> Sight {
    Sight::Names(
        seq![
            ("status"@, Sight::Text(d.status@)),
            (
                "exit_code"@,
                match d.exit_code {
                    Some(n) => Sight::Count(n as int),
                    None => Sight::Nil,
                },
            ),
            ("initialized"@, Sight::Flag(d.initialized)),
            ("restart_count"@, Sight::Count(d.restart_count as int)),
            ("env"@, Sight::Names(seen_vars(d.env))),
        ],
    )
}

/// The dependencies as a script sees them.
pub open spec fn seen_deps(m: NameMap<DepInfo>) -> Seq<(Seq<char>, Sight)> {
    Seq::new(m.keys().len(), |i: int| (m.keys()[i], seen_dep(m.values()[i])))
}

/// What a script sees by which name. The environment that is being computed is left out of it:
/// it is changed while scripts are run.
pub open spec fn scene(ctx: EvalContext) -> Seq<(Seq<char>, Sight)> {
    seq![
        ("env"@, Sight::Active),
        (
            "service"@,
            match ctx.service {
                Some(s) => seen_service(s, ctx.hook is None),
                None => Sight::Nil,
            },
        ),
        (
            "hook"@,
            match ctx.hook {
                Some(h) => seen_service(h, true),
                None => Sight::Nil,
            },
        ),
        ("deps"@, Sight::Names(seen_deps(ctx.deps))),
        ("kepler"@, Sight::Names(seq![("env"@, Sight::Names(seen_vars(ctx.kepler_env)))])),
    ]
}

/// Variables as a script sees them.
fn show_vars(m: &NameMap<String>) -> (r: Vec<(String, Slot)>)
    ensures
        sights(r@) == seen_vars(*m),
{
    let mut out: Vec<(String, Slot)> = Vec::new();
    let n: usize = m.len();
    let mut i: usize = 0;
    while i < n
        invariant
            i <= n,
            n == m.keys().len(),
            m.well_formed(),
            sights(out@) == seen_vars(*m).take(i as int),
        decreases n - i,
    {
        let ghost before = sights(out@);
        out.push((m.key_at(i).clone(), Slot::Text(m.value_at(i).clone())));
        assert(sights(out@) == before.push(seen_vars(*m)[i as int]));
        assert(seen_vars(*m).take(i + 1) == before.push(seen_vars(*m)[i as int]));
        i += 1;
    }
    assert(seen_vars(*m).take(n as int) == seen_vars(*m));
    out
}

/// Variables as one value.
fn show_names(m: &NameMap<String>) -> (r: Slot)
    ensures
        sight(r) == Sight::Names(seen_vars(*m)),
{
    let list = show_vars(m);
    proof {
        lemma_sight_names(list);
    }
    Slot::Names(list)
}

/// A service or a hook as a script sees it.
fn show_service(s: &ServiceEvalContext, active: bool) -> (r: Slot)
    ensures
        sight(r) == seen_service(*s, active),
{
    let env = if active {
        Slot::Active
    } else {
        show_names(&s.env)
    };
    let mut list: Vec<(String, Slot)> = Vec::new();
    list.push(("name".to_owned(), Slot::Text(s.name.clone())));
    list.push(("raw_env".to_owned(), show_names(&s.raw_env)));
    list.push(("env_file".to_owned(), show_names(&s.env_file)));
    list.push(("env".to_owned(), env));
    proof {
        lemma_sight_names(list);
        assert(sights(list@) =~= seen_service(*s, active)->Names_0);
    }
    Slot::Names(list)
}

/// A dependency as a script sees it.
fn show_dep(d: &DepInfo) -> (r: Slot)
    ensures
        sight(r) == seen_dep(*d),
{
    let code = match d.exit_code {
        Some(n) => Slot::Count(n as i64),
        None => Slot::Nil,
    };
    let mut list: Vec<(String, Slot)> = Vec::new();
    list.push(("status".to_owned(), Slot::Text(d.status.clone())));
    list.push(("exit_code".to_owned(), code));
    list.push(("initialized".to_owned(), Slot::Flag(d.initialized)));
    list.push(("restart_count".to_owned(), Slot::Count(d.restart_count as i64)));
    list.push(("env".to_owned(), show_names(&d.env)));
    proof {
        lemma_sight_names(list);
        assert(sights(list@) =~= seen_dep(*d)->Names_0);
    }
    Slot::Names(list)
}

/// The dependencies as a script sees them.
fn show_deps(m: &NameMap<DepInfo>) -> (r: Slot)
    ensures
        sight(r) == Sight::Names(seen_deps(*m)),
{
    let mut out: Vec<(String, Slot)> = Vec::new();
    let n: usize = m.len();
    let mut i: usize = 0;
    while i < n
        invariant
            i <= n,
            n == m.keys().len(),
            m.well_formed(),
            sights(out@) == seen_deps(*m).take(i as int),
        decreases n - i,
    {
        let ghost before = sights(out@);
        out.push((m.key_at(i).clone(), show_dep(m.value_at(i))));
        assert(sights(out@) == before.push(seen_deps(*m)[i as int]));
        assert(seen_deps(*m).take(i + 1) == before.push(seen_deps(*m)[i as int]));
        i += 1;
    }
    assert(seen_deps(*m).take(n as int) == seen_deps(*m));
    proof {
        lemma_sight_names(out);
    }
    Slot::Names(out)
}

/// What a script sees by which name.
pub fn show(ctx: &EvalContext) -> (r: Vec<(String, Slot)>)
    ensures
        sights(r@) == scene(*ctx),
{
    let service = match &ctx.service {
        Some(s) => show_service(s, ctx.hook.is_none()),
        None => Slot::Nil,
    };
    let hook = match &ctx.hook {
        Some(h) => show_service(h, true),
        None => Slot::Nil,
    };
    let mut daemon: Vec<(String, Slot)> = Vec::new();
    daemon.push(("env".to_owned(), show_names(&ctx.kepler_env)));
    proof {
        lemma_sight_names(daemon);
        assert(sights(daemon@) =~= seq![("env"@, Sight::Names(seen_vars(ctx.kepler_env)))]);
    }
    let mut list: Vec<(String, Slot)> = Vec::new();
    list.push(("env".to_owned(), Slot::Active));
    list.push(("service".to_owned(), service));
    list.push(("hook".to_owned(), hook));
    list.push(("deps".to_owned(), show_deps(&ctx.deps)));
    list.push(("kepler".to_owned(), Slot::Names(daemon)));
    assert(sights(list@) =~= scene(*ctx));
    list
}

/// What kind of code is run.
#[derive(Debug, Clone, Copy, PartialEq, Eq, Structural)]
pub enum Form {
    /// An expression whose result goes into a text.
    Text,
    /// An expression whose result is kept with its type.
    Value,
    /// A block of statements.
    Block,
}

/// What is asked of the interpreter.
pub enum Order<'a> {
    /// Lets scripts see a context from now on. With `open`, variables can be set until they are
    /// frozen.
    Build { ctx: &'a EvalContext, open: bool },
    /// Gives a variable of the environment that is being computed a value.
    Assign { name: &'a str, value: &'a str },
    /// Forbids further changes of the environment that is being computed.
    Freeze,
    /// Runs code; `chunk` is what its errors name as the place.
    Run { form: Form, code: &'a str, chunk: &'a str },
    /// Gives the text of a file.
    Read { path: &'a str },
    /// Gives the variables of an environment file, as a table from names to texts.
    ReadVars { path: &'a str },
}

/// The model of what is asked of the interpreter.
#[verifier::ext_equal]
pub enum Act {
    Build { scene: Seq<(Seq<char>, Sight)>, vars: Seq<(Seq<char>, Sight)>, open: bool },
    Assign { name: Seq<char>, value: Seq<char> },
    Freeze,
    Run { form: Form, code: Seq<char>, chunk: Seq<char> },
    Read { path: Seq<char> },
    ReadVars { path: Seq<char> },
    /// Runs code for its definitions, before anything is asked.
    Define { code: Seq<char>, chunk: Seq<char> },
    /// Lets files be read from now on: what may be answered when a file is asked for, by its path
    /// and by whether its variables are asked for.
    Connect { files: spec_fn(Seq<char>, bool, Reply) -> bool },
}

impl<'a> View for Order<'a> {
    type V = Act;

    open spec fn view(&self) -> Act {
        match self {
            Order::Build { ctx, open } => Act::Build {
                scene: scene(**ctx),
                vars: seen_vars(ctx.active()),
                open: *open,
            },
            Order::Assign { name, value } => Act::Assign { name: name@, value: value@ },
            Order::Freeze => Act::Freeze,
            Order::Run { form, code, chunk } => Act::Run { form: *form, code: code@, chunk: chunk@ },
            Order::Read { path } => Act::Read { path: path@ },
            Order::ReadVars { path } => Act::ReadVars { path: path@ },
        }
    }
}

/// What the interpreter answers: a value, or what went wrong.
pub enum Reply {
    Value(LuaValue),
    Fault(Seq<char>),
}

/// What is noted of code that was run for its definitions.
pub open spec fn defined(code: Seq<char>, chunk: Seq<char>, fault: Option<Seq<char>>) -> (
    Act,
    Reply,
) {
    (
        Act::Define { code, chunk },
        match fault {
            None => Reply::Value(LuaValue::Nil),
            Some(e) => Reply::Fault(e),
        },
    )
}

/// The model of an answer.
pub open spec fn reply(r: Result<LuaValue, String>) -> Reply {
    match r {
        Ok(v) => Reply::Value(v),
        Err(m) => Reply::Fault(m@),
    }
}

/// Something that runs scripts and keeps the record of what it was asked and what it answered.
pub trait Scripts {
    /// What was asked and answered so far.
    spec fn log(&self) -> Seq<(Act, Reply)>;

    /// Does what is asked. An order that has no result is answered with nil.
    fn perform(&mut self, order: Order<'_>) -> (r: Result<LuaValue, String>)
        ensures
            final(self).log() == old(self).log().push((order@, reply(r))),
    ;
}

/// An interpreter of `mlua`.
#[verifier::external_type_specification]
#[verifier::external_body]
pub struct ExLua(mlua::Lua);

/// A table of `mlua`.
#[verifier::external_type_specification]
#[verifier::external_body]
pub struct ExTable(mlua::Table);

/// A value of `mlua`.
#[verifier::external_type_specification]
#[verifier::external_body]
pub struct ExValue(mlua::Value);

/// A string of `mlua`.
#[verifier::external_type_specification]
#[verifier::external_body]
pub struct ExLuaString(mlua::LuaString);

/// `mlua::Lua::new`: an interpreter with the safe part of the standard library. Nothing is said
/// of it: what an interpreter holds is seen only by running code.
#[verifier::external_body]
fn new_lua() -> (r: mlua::Lua) {
    mlua::Lua::new()
}

/// Something that an interpreter gave, and which one it was. What one interpreter gave cannot be
/// used with another, nor after its interpreter is gone.
pub struct Own<T> {
    it: T,
    home: Ghost<mlua::Lua>,
}

/// `mlua::Lua::globals`: the table of global names, which belongs to the interpreter. Nothing is
/// said of its contents.
#[verifier::external_body]
fn globals_of(lua: &mlua::Lua) -> (r: Own<mlua::Table>)
    ensures
        r.home@ == *lua,
{
    Own { it: lua.globals(), home: Ghost(*lua) }
}

/// `mlua::Lua::create_table`: a new table, which belongs to the interpreter, or that the
/// interpreter has no memory for it. Nothing is said of its contents, which change behind shared
/// references.
#[verifier::external_body]
fn new_table(lua: &mlua::Lua) -> (r: Result<Own<mlua::Table>, String>)
    ensures
        r matches Ok(t) ==> t.home@ == *lua,
{
    match lua.create_table() {
        Ok(it) => Ok(Own { it, home: Ghost(*lua) }),
        Err(e) => Err(e.to_string()),
    }
}

/// Which table is meant.
pub enum Place {
    /// The table of global names.
    Globals,
    /// The table that was made by the deed with this number.
    Made(nat),
}

/// The model of a value that is put into a table.
pub enum Item {
    Flag(bool),
    Count(int),
    Text(Seq<char>),
    Table(Place),
}

/// One thing that the interpreter is told to do.
pub enum Step {
    /// Makes a table without entries.
    Make,
    /// Gives a name a value in a table.
    Put { table: Place, name: Seq<char>, item: Item },
    /// Makes one table the metatable of another.
    Link { table: Place, meta: Place },
    /// Forbids changes of a table.
    Close { table: Place },
    /// Runs code for its definitions.
    Define { code: Seq<char>, chunk: Seq<char> },
    /// Runs code that sees the names of a table, for its result.
    Compute { code: Seq<char>, chunk: Seq<char>, table: Place },
}

/// What came of a step.
pub enum Outcome {
    Done,
    Gave(Own<mlua::Value>),
    Fault(Seq<char>),
}

/// A step that was taken, and what came of it.
pub struct Deed {
    pub step: Step,
    pub outcome: Outcome,
}

/// Steps that were taken without a fault.
pub open spec fn done(plan: Seq<Step>) -> Seq<Deed> {
    plan.map_values(|s: Step| Deed { step: s, outcome: Outcome::Done })
}

/// The deeds after the first `k` steps of a plan went well and the next one failed.
pub open spec fn stopped(before: Seq<Deed>, plan: Seq<Step>, k: int, e: Seq<char>) -> Seq<Deed> {
    (before + done(plan.take(k))).push(Deed { step: plan[k], outcome: Outcome::Fault(e) })
}

/// Whether a plan was followed: to its end if there was no fault, and otherwise up to the step
/// that failed.
pub open spec fn followed(
    before: Seq<Deed>,
    after: Seq<Deed>,
    plan: Seq<Step>,
    fault: Option<Seq<char>>,
) -> bool {
    match fault {
        None => after == before + done(plan),
        Some(e) => exists|k: int|
            0 <= k < plan.len() && after == #[trigger] stopped(before, plan, k, e),
    }
}

/// What went wrong, if anything did.
pub open spec fn fault_of<T>(r: Result<T, String>) -> Option<Seq<char>> {
    match r {
        Ok(_) => None,
        Err(e) => Some(e@),
    }
}

/// The steps that put what a script can see into a table under a name, where `at` deeds were done
/// before and `vars` is the environment that is being computed. Nil takes no step: it is what an
/// absent name has. A table of its own is filled, closed and then put in.
pub open spec fn steps(name: Seq<char>, s: Sight, table: Place, vars: Place, at: nat) -> Seq<Step>
    decreases s, 0nat,
{
    match s {
        Sight::Nil => seq![],
        Sight::Flag(b) => seq![Step::Put { table, name, item: Item::Flag(b) }],
        Sight::Count(n) => seq![Step::Put { table, name, item: Item::Count(n) }],
        Sight::Text(t) => seq![Step::Put { table, name, item: Item::Text(t) }],
        Sight::Active => seq![Step::Put { table, name, item: Item::Table(vars) }],
        Sight::Names(list) => seq![Step::Make] + steps_of(
            list,
            list.len(),
            Place::Made(at),
            vars,
            at + 1,
        ) + seq![
            Step::Close { table: Place::Made(at) },
            Step::Put { table, name, item: Item::Table(Place::Made(at)) },
        ],
    }
}

/// The steps that put the first `n` of a list of named values into a table.
pub open spec fn steps_of(
    list: Seq<(Seq<char>, Sight)>,
    n: nat,
    table: Place,
    vars: Place,
    at: nat,
) -> Seq<Step>
    decreases list, n,
{
    if n == 0 || n > list.len() {
        seq![]
    } else {
        let first = steps_of(list, (n - 1) as nat, table, vars, at);
        first + steps(list[n - 1].0, list[n - 1].1, table, vars, at + first.len())
    }
}

/// The steps that make the environment that is being computed.
pub open spec fn vars_steps(vars: Seq<(Seq<char>, Sight)>, open: bool, at: nat) -> Seq<Step> {
    let table = Place::Made(at);
    seq![Step::Make] + steps_of(vars, vars.len(), table, table, at + 1) + if open {
        seq![]
    } else {
        seq![Step::Close { table }]
    }
}

/// The steps that make the table of what a script sees, which falls back on the global names.
pub open spec fn scene_steps(scene: Seq<(Seq<char>, Sight)>, vars: Place, at: nat) -> Seq<Step> {
    let filled = seq![Step::Make] + steps_of(scene, scene.len(), Place::Made(at), vars, at + 1);
    let meta = Place::Made(at + filled.len());
    filled + seq![
        Step::Make,
        Step::Put { table: meta, name: "__index"@, item: Item::Table(Place::Globals) },
        Step::Link { table: Place::Made(at), meta },
    ]
}

/// The steps that let scripts see a context.
pub open spec fn build_steps(
    scene: Seq<(Seq<char>, Sight)>,
    vars: Seq<(Seq<char>, Sight)>,
    open: bool,
    at: nat,
) -> Seq<Step> {
    let first = vars_steps(vars, open, at);
    first + scene_steps(scene, Place::Made(at), at + first.len())
}

proof fn lemma_followed_on(
    a: Seq<Deed>,
    b: Seq<Deed>,
    c: Seq<Deed>,
    p: Seq<Step>,
    q: Seq<Step>,
    fault: Option<Seq<char>>,
)
    requires
        followed(a, b, p, None),
        followed(b, c, q, fault),
    ensures
        followed(a, c, p + q, fault),
        b.len() == a.len() + p.len(),
{
    match fault {
        None => {
            assert(c =~= a + done(p + q));
        },
        Some(e) => {
            let k = choose|k: int| 0 <= k < q.len() && c == #[trigger] stopped(b, q, k, e);
            assert((p + q).take(p.len() + k) =~= p + q.take(k));
            assert(c =~= stopped(a, p + q, p.len() + k, e));
        },
    }
}

proof fn lemma_followed_until(
    a: Seq<Deed>,
    b: Seq<Deed>,
    p: Seq<Step>,
    q: Seq<Step>,
    e: Seq<char>,
)
    requires
        followed(a, b, p, Some(e)),
    ensures
        followed(a, b, p + q, Some(e)),
{
    let k = choose|k: int| 0 <= k < p.len() && b == #[trigger] stopped(a, p, k, e);
    assert((p + q).take(k) =~= p.take(k));
    assert(b =~= stopped(a, p + q, k, e));
}

/// A table, and which one it is.
struct Tab {
    table: Own<mlua::Table>,
    place: Ghost<Place>,
}

/// A value that can be put into a table.
enum Entry<'a> {
    Flag(bool),
    Count(i64),
    Text(&'a str),
    Table(&'a Tab),
}

/// Whether a value can be put into a table of this interpreter.
spec fn belongs(e: Entry<'_>, lua: mlua::Lua) -> bool {
    e matches Entry::Table(t) ==> t.table.home@ == lua
}

/// `mlua::Table::set`: gives a name a value in a table. It fails on a table that is frozen, or
/// for want of memory; a table of another interpreter is left out, since `mlua` panics on it.
/// What the table holds then is not stated: it changes behind shared references.
#[verifier::external_body]
fn set_entry(lua: &mlua::Lua, table: &Tab, name: &str, value: Entry<'_>) -> (r: Result<(), String>)
    requires
        table.table.home@ == *lua,
        belongs(value, *lua),
{
    match value {
        Entry::Flag(b) => table.table.it.set(name, b),
        Entry::Count(n) => table.table.it.set(name, n),
        Entry::Text(t) => table.table.it.set(name, t),
        Entry::Table(t) => table.table.it.set(name, &t.table.it),
    }.map_err(|e| e.to_string())
}

/// `mlua::Table::set_metatable`: sets the metatable of a table; both belong to the interpreter,
/// since `mlua` panics otherwise.
#[verifier::external_body]
fn set_meta(lua: &mlua::Lua, table: &Tab, meta: Tab) -> (r: Result<(), String>)
    requires
        table.table.home@ == *lua,
        meta.table.home@ == *lua,
{
    table.table.it.set_metatable(Some(meta.table.it)).map_err(|e| e.to_string())
}

/// `mlua::Table::set_readonly`: forbids changes of a table.
#[verifier::external_body]
fn set_frozen(lua: &mlua::Lua, table: &Tab)
    requires
        table.table.home@ == *lua,
{
    table.table.it.set_readonly(true)
}

/// `mlua::Chunk::exec`: runs code, which is taken as text, in the global environment. What it
/// does, and whether it fails, is up to the code.
#[verifier::external_body]
fn exec_code(lua: &mlua::Lua, code: &str, chunk: &str) -> (r: Result<(), String>) {
    let text = mlua::chunk::ChunkMode::Text;
    lua.load(code).set_name(chunk).set_mode(text).exec().map_err(|e| e.to_string())
}

/// `mlua::Chunk::eval`: runs code, which is taken as text, in an environment and gives its
/// result, which belongs to the interpreter. What it gives, and whether it fails, is up to the
/// code, which may also read the clock or draw random numbers. An environment of another
/// interpreter is left out, since `mlua` panics on it.
#[verifier::external_body]
fn eval_code(lua: &mlua::Lua, code: &str, chunk: &str, env: &Tab) -> (r: Result<
    Own<mlua::Value>,
    String,
>)
    requires
        env.table.home@ == *lua,
    ensures
        r matches Ok(v) ==> v.home@ == *lua,
{
    let text = mlua::chunk::ChunkMode::Text;
    let chunk = lua.load(code).set_name(chunk).set_mode(text);
    match chunk.set_environment(env.table.it.clone()).eval() {
        Ok(it) => Ok(Own { it, home: Ghost(*lua) }),
        Err(e) => Err(e.to_string()),
    }
}

/// A value of `mlua` on its surface: a table is kept as it is.
enum Surface {
    Plain(LuaValue),
    Text(Own<mlua::LuaString>),
    Table(Own<mlua::Table>),
    Rare(mlua::Value),
}

/// A kind of value that has no counterpart outside the interpreter.
enum Rare {
    LightUserData,
    Vector,
    Function,
    Thread,
    UserData,
    Buffer,
    Error,
    Other,
}

/// The variants of `mlua::Value`, told apart one by one; what is kept as it is belongs to the same
/// interpreter. A number that is no integer is given as the texts that std and `serde_yaml` write
/// it as. Which variant comes of which value is not stated: a value of `mlua` is opaque.
#[verifier::external_body]
fn surface_of(value: Own<mlua::Value>) -> (r: Surface)
    ensures
        r matches Surface::Text(t) ==> t.home@ == value.home@,
        r matches Surface::Table(t) ==> t.home@ == value.home@,
        r matches Surface::Plain(v) ==> v is Nil || v is Boolean || v is Integer || v is Number,
{
    match value.it {
        mlua::Value::Nil => Surface::Plain(LuaValue::Nil),
        mlua::Value::Boolean(b) => Surface::Plain(LuaValue::Boolean(b)),
        mlua::Value::Integer(i) => Surface::Plain(LuaValue::Integer(i.into())),
        mlua::Value::Number(n) => Surface::Plain(
            LuaValue::Number {
                text: n.to_string(),
                notation: serde_yaml::Number::from(n).to_string(),
            },
        ),
        mlua::Value::String(it) => Surface::Text(Own { it, home: value.home }),
        mlua::Value::Table(it) => Surface::Table(Own { it, home: value.home }),
        other => Surface::Rare(other),
    }
}

/// The other variants of `mlua::Value`, one by one.
#[verifier::external_body]
fn rare_of(value: mlua::Value) -> (r: Rare) {
    match value {
        mlua::Value::LightUserData(_) => Rare::LightUserData,
        mlua::Value::Vector(_) => Rare::Vector,
        mlua::Value::Function(_) => Rare::Function,
        mlua::Value::Thread(_) => Rare::Thread,
        mlua::Value::UserData(_) => Rare::UserData,
        mlua::Value::Buffer(_) => Rare::Buffer,
        mlua::Value::Error(_) => Rare::Error,
        _ => Rare::Other,
    }
}

/// The name of the type of a value that has no counterpart.
spec fn rare_text(kind: Rare) -> Seq<char> {
    match kind {
        Rare::LightUserData => "lightuserdata"@,
        Rare::Vector => "vector"@,
        Rare::Function => "function"@,
        Rare::Thread => "thread"@,
        Rare::UserData => "userdata"@,
        Rare::Buffer => "buffer"@,
        Rare::Error => "error"@,
        Rare::Other => "other"@,
    }
}

/// The name of the type of a value that has no counterpart.
fn rare_name(kind: Rare) -> (r: String)
    ensures
        r@ == rare_text(kind),
{
    match kind {
        Rare::LightUserData => "lightuserdata".to_owned(),
        Rare::Vector => "vector".to_owned(),
        Rare::Function => "function".to_owned(),
        Rare::Thread => "thread".to_owned(),
        Rare::UserData => "userdata".to_owned(),
        Rare::Buffer => "buffer".to_owned(),
        Rare::Error => "error".to_owned(),
        Rare::Other => "other".to_owned(),
    }
}

/// `mlua::LuaString::to_str`: the text of a string, or that its bytes are no text; then its text
/// with replacement characters, by `to_string_lossy`, and what is wrong. The string belongs to
/// the interpreter, which must be there still.
#[verifier::external_body]
fn string_of(lua: &mlua::Lua, s: Own<mlua::LuaString>) -> (r: LuaText)
    requires
        s.home@ == *lua,
{
    match s.it.to_str() {
        Ok(t) => LuaText::Text(t.to_owned()),
        Err(e) => LuaText::Bytes { lossy: s.it.to_string_lossy(), error: e.to_string() },
    }
}

/// `mlua::Table::pairs`: the entries of a table in the order in which it is walked, keys and
/// values as they are; they belong to the interpreter. It fails where there are more of them than
/// the interpreter can hand out at once. Which entries there are is not stated: they change behind
/// shared references.
#[verifier::external_body]
fn entries_of(lua: &mlua::Lua, table: Own<mlua::Table>) -> (r: Result<
    VecDeque<(Own<mlua::Value>, Own<mlua::Value>)>,
    String,
>)
    requires
        table.home@ == *lua,
    ensures
        r matches Ok(list) ==> forall|i: int|
            0 <= i < list@.len() ==> (#[trigger] list@[i]).0.home@ == *lua && list@[i].1.home@
                == *lua,
{
    table.it.pairs::<mlua::Value, mlua::Value>().map(
        |p| match p {
            Ok((k, v)) => Ok((Own { it: k, home: table.home }, Own { it: v, home: table.home })),
            Err(e) => Err(e.to_string()),
        },
    ).collect()
}

/// How deep tables can be nested in a value that is taken out of the interpreter. A table that
/// holds itself is nested without end.
pub const MAX_TABLE_DEPTH: u64 = 200;

/// What is said of tables that are nested too deep.
pub open spec fn too_deep() -> Seq<char> {
    "tables are nested too deep"@
}

/// Whether a value that holds no others is taken out of the interpreter as this. A table is left
/// to the caller.
spec fn plainly(lua: mlua::Lua, s: Surface, r: LuaValue) -> bool {
    match s {
        Surface::Plain(v) => r == v,
        Surface::Text(t) => r matches LuaValue::String(text) && call_ensures(
            string_of,
            (&lua, t),
            text,
        ),
        Surface::Rare(v) => r matches LuaValue::Other(name) && exists|kind: Rare| #[trigger]
            call_ensures(rare_of, (v,), kind) && name@ == rare_text(kind),
        Surface::Table(_) => false,
    }
}

/// Whether a value is taken out of the interpreter as this, without what a table holds.
spec fn outlined(lua: mlua::Lua, value: Own<mlua::Value>, r: LuaValue) -> bool {
    exists|s: Surface| #[trigger]
        call_ensures(surface_of, (value,), s) && match s {
            Surface::Table(_) => r matches LuaValue::Table(entries) && entries@.len() == 0,
            _ => plainly(lua, s, r),
        }
}

/// Whether a value is taken out of the interpreter as this, with all that it holds, where tables
/// can be nested `depth` deep. A table is taken out with the entries that walking it gave, or
/// not at all where walking it, or taking out one of its values, failed.
spec fn held(
    lua: mlua::Lua,
    value: Own<mlua::Value>,
    depth: nat,
    r: Result<LuaValue, String>,
) -> bool
    decreases depth, 1nat,
{
    exists|s: Surface| #[trigger]
        call_ensures(surface_of, (value,), s) && match s {
            Surface::Table(t) => if depth == 0 {
                fault_of(r) == Some(too_deep())
            } else {
                exists|got: Result<VecDeque<(Own<mlua::Value>, Own<mlua::Value>)>, String>| #[trigger]
                    call_ensures(entries_of, (&lua, t), got) && match got {
                        Ok(pairs) => match r {
                            Ok(v) => v matches LuaValue::Table(entries) && walked(
                                lua,
                                pairs@,
                                (depth - 1) as nat,
                                entries@,
                            ) && entries@.len() == pairs@.len(),
                            Err(e) => walk_fails(lua, pairs@, (depth - 1) as nat, e),
                        },
                        Err(e) => r == Err::<LuaValue, String>(e),
                    }
            },
            _ => r matches Ok(v) && plainly(lua, s, v),
        }
}

/// Whether the first of these entries are taken out of the interpreter as those: the keys
/// without what they hold, the values with it.
spec fn walked(
    lua: mlua::Lua,
    pairs: Seq<(Own<mlua::Value>, Own<mlua::Value>)>,
    depth: nat,
    entries: Seq<(LuaValue, LuaValue)>,
) -> bool
    decreases depth, 2nat,
{
    &&& entries.len() <= pairs.len()
    &&& forall|i: int|
        0 <= i < entries.len() ==> outlined(lua, pairs[i].0, (#[trigger] entries[i]).0) && held(
            lua,
            pairs[i].1,
            depth,
            Ok(entries[i].1),
        )
}

/// Whether the first entries can be taken out of the interpreter, and the value of the next one
/// cannot.
spec fn walk_fails(
    lua: mlua::Lua,
    pairs: Seq<(Own<mlua::Value>, Own<mlua::Value>)>,
    depth: nat,
    e: String,
) -> bool
    decreases depth, 3nat,
{
    exists|entries: Seq<(LuaValue, LuaValue)>|
        {
            &&& walked(lua, pairs, depth, entries)
            &&& #[trigger] entries.len() < pairs.len()
            &&& held(lua, pairs[entries.len() as int].1, depth, Err(e))
        }
}

/// A value with all that it holds.
fn contents_of(lua: &mlua::Lua, value: Own<mlua::Value>, depth: u64) -> (r: Result<
    LuaValue,
    String,
>)
    requires
        value.home@ == *lua,
    ensures
        held(*lua, value, depth as nat, r),
    decreases depth, 0nat,
{
    match given(surface_of, value) {
        Surface::Plain(v) => Ok(v),
        Surface::Text(t) => Ok(LuaValue::String(given2(string_of, lua, t))),
        Surface::Rare(v) => Ok(LuaValue::Other(rare_name(given(rare_of, v)))),
        Surface::Table(t) => {
            if depth == 0 {
                return Err("tables are nested too deep".to_owned());
            }
            let got = given2(entries_of, lua, t);
            let ghost seen = got;
            match got {
                Ok(pairs) => {
                    let r = walk(lua, pairs, depth - 1);
                    assert(call_ensures(entries_of, (lua, t), seen));
                    match r {
                        Ok(entries) => Ok(LuaValue::Table(entries)),
                        Err(e) => Err(e),
                    }
                },
                Err(e) => Err(e),
            }
        },
    }
}

/// Entries with all that their values hold.
fn walk(
    lua: &mlua::Lua,
    pairs: VecDeque<(Own<mlua::Value>, Own<mlua::Value>)>,
    depth: u64,
) -> (r: Result<Vec<(LuaValue, LuaValue)>, String>)
    requires
        forall|i: int|
            0 <= i < pairs@.len() ==> (#[trigger] pairs@[i]).0.home@ == *lua && pairs@[i].1.home@
                == *lua,
    ensures
        match r {
            Ok(entries) => walked(*lua, pairs@, depth as nat, entries@) && entries@.len()
                == pairs@.len(),
            Err(e) => walk_fails(*lua, pairs@, depth as nat, e),
        },
    decreases depth, 1nat,
{
    let ghost all = pairs@;
    let mut entries: Vec<(LuaValue, LuaValue)> = Vec::new();
    let mut left = pairs;
    let n: usize = left.len();
    let mut i: usize = 0;
    while i < n
        invariant
            i <= n,
            n == all.len(),
            all == pairs@,
            left@ == all.skip(i as int),
            entries@.len() == i,
            walked(*lua, all, depth as nat, entries@),
            forall|i: int|
                0 <= i < all.len() ==> (#[trigger] all[i]).0.home@ == *lua && all[i].1.home@ == *lua,
        decreases n - i,
    {
        assert(left@[0] == all[i as int]);
        let (k, v) = match left.pop_front() {
            Some(pair) => pair,
            None => {
                return Ok(entries);
            },
        };
        assert(left@ =~= all.skip(i + 1));
        let key = outline_of(lua, k);
        let ghost before = entries@;
        match contents_of(lua, v, depth) {
            Ok(value) => {
                entries.push((key, value));
                assert forall|j: int| 0 <= j < entries@.len() implies outlined(
                    *lua,
                    all[j].0,
                    (#[trigger] entries@[j]).0,
                ) && held(*lua, all[j].1, depth as nat, Ok(entries@[j].1)) by {
                    if j < i {
                        assert(entries@[j] == before[j]);
                    }
                }
            },
            Err(e) => {
                assert(walked(*lua, all, depth as nat, before));
                assert(held(*lua, all[before.len() as int].1, depth as nat, Err(e)));
                return Err(e);
            },
        }
        i += 1;
    }
    Ok(entries)
}

/// A value without what a table holds.
fn outline_of(lua: &mlua::Lua, value: Own<mlua::Value>) -> (r: LuaValue)
    requires
        value.home@ == *lua,
    ensures
        outlined(*lua, value, r),
{
    match given(surface_of, value) {
        Surface::Plain(v) => v,
        Surface::Text(t) => LuaValue::String(given2(string_of, lua, t)),
        Surface::Rare(v) => LuaValue::Other(rare_name(given(rare_of, v))),
        Surface::Table(_) => LuaValue::Table(Vec::new()),
    }
}

/// The model of a value that is put into a table.
spec fn item(e: Entry<'_>) -> Item {
    match e {
        Entry::Flag(b) => Item::Flag(b),
        Entry::Count(n) => Item::Count(n as int),
        Entry::Text(t) => Item::Text(t@),
        Entry::Table(t) => Item::Table(t.place@),
    }
}

/// Whether making a table in an interpreter can fail with this message.
pub closed spec fn refuses_table(lua: mlua::Lua, e: Seq<char>) -> bool {
    exists|got: Result<Own<mlua::Table>, String>| #[trigger]
        call_ensures(new_table, (&lua,), got) && fault_of(got) == Some(e)
}

/// What came of a step that gives no value.
spec fn outcome(fault: Option<Seq<char>>) -> Outcome {
    match fault {
        None => Outcome::Done,
        Some(e) => Outcome::Fault(e),
    }
}

/// What came of running code for its result.
spec fn gave(r: Result<Own<mlua::Value>, String>) -> Outcome {
    match r {
        Ok(v) => Outcome::Gave(v),
        Err(e) => Outcome::Fault(e@),
    }
}

/// What an interpreter was told to do, what came of it, and the tables that it made, each by the
/// number of the deed that made it.
pub struct Past {
    pub deeds: Seq<Deed>,
    pub made: Map<nat, Own<mlua::Table>>,
}

/// Whether all tables of one past are in another.
pub open spec fn grows(before: Past, after: Past) -> bool {
    forall|n: nat| #[trigger]
        before.made.contains_key(n) ==> after.made.contains_key(n) && after.made[n]
            == before.made[n]
}

/// Whether a table is the one that its place says: the interpreter gave it as the table of global
/// names, or made it in that deed.
spec fn rightful(lua: mlua::Lua, past: Past, t: Tab) -> bool {
    &&& t.table.home@ == lua
    &&& match t.place@ {
        Place::Globals => call_ensures(globals_of, (&lua,), t.table),
        Place::Made(n) => past.made.contains_key(n) && past.made[n] == t.table,
    }
}

/// Whether a deed was done: the interpreter was called with what the step says, and gave what
/// the outcome says.
spec fn was_done(lua: mlua::Lua, past: Past, deed: Deed) -> bool {
    match deed.step {
        Step::Make => exists|r: Result<Own<mlua::Table>, String>| #[trigger]
            call_ensures(new_table, (&lua,), r) && deed.outcome == outcome(fault_of(r)),
        Step::Put { table, name, item: i } => exists|
            t: &Tab,
            n: &str,
            v: Entry<'_>,
            r: Result<(), String>,
        | #[trigger]
            call_ensures(set_entry, (&lua, t, n, v), r) && rightful(lua, past, *t) && t.place@
                == table && n@ == name && item(v) == i && (v matches Entry::Table(x) ==> rightful(
                lua,
                past,
                *x,
            )) && deed.outcome == outcome(fault_of(r)),
        Step::Link { table, meta } => exists|t: &Tab, m: Tab, r: Result<(), String>| #[trigger]
            call_ensures(set_meta, (&lua, t, m), r) && rightful(lua, past, *t) && rightful(
                lua,
                past,
                m,
            ) && t.place@ == table && m.place@ == meta && deed.outcome == outcome(fault_of(r)),
        Step::Close { table } => deed.outcome is Done && exists|t: &Tab, r: ()| #[trigger]
            call_ensures(set_frozen, (&lua, t), r) && rightful(lua, past, *t) && t.place@ == table,
        Step::Define { code, chunk } => exists|c: &str, k: &str, r: Result<(), String>| #[trigger]
            call_ensures(exec_code, (&lua, c, k), r) && c@ == code && k@ == chunk && deed.outcome
                == outcome(fault_of(r)),
        Step::Compute { code, chunk, table } => exists|
            c: &str,
            k: &str,
            t: &Tab,
            r: Result<Own<mlua::Value>, String>,
        | #[trigger]
            call_ensures(eval_code, (&lua, c, k, t), r) && rightful(lua, past, *t) && c@ == code
                && k@ == chunk && t.place@ == table && deed.outcome == gave(r),
    }
}

/// Whether a past is that of an interpreter: every deed was done, and every table was made by the
/// deed of its number.
spec fn happened(lua: mlua::Lua, past: Past) -> bool {
    &&& forall|i: int| 0 <= i < past.deeds.len() ==> was_done(lua, past, #[trigger] past.deeds[i])
    &&& forall|n: nat| #[trigger]
        past.made.contains_key(n) ==> n < past.deeds.len() && past.deeds[n as int].step is Make
            && call_ensures(new_table, (&lua,), Ok(past.made[n]))
}

proof fn lemma_still_done(lua: mlua::Lua, before: Past, after: Past, deed: Deed)
    requires
        grows(before, after),
        was_done(lua, before, deed),
    ensures
        was_done(lua, after, deed),
{
}

/// An interpreter at work, with its past.
struct Desk<'a> {
    lua: &'a mlua::Lua,
    past: Ghost<Past>,
}

impl<'a> Desk<'a> {
    /// The past is that of the interpreter.
    #[verifier::type_invariant]
    spec fn truthful(self) -> bool {
        happened(*self.lua, self.past@)
    }

    /// Whether a table is one of this interpreter, and the one that its place says.
    spec fn owns(self, t: Tab) -> bool {
        rightful(*self.lua, self.past@, t)
    }

    /// Whether the same interpreter went on from there.
    spec fn goes_on(self, before: Desk<'a>) -> bool {
        *self.lua == *before.lua && grows(before.past@, self.past@)
    }

    /// Goes on with an interpreter whose past is known.
    fn open(lua: &'a mlua::Lua, Ghost(past): Ghost<Past>) -> (r: Self)
        requires
            happened(*lua, past),
        ensures
            *r.lua == *lua,
            r.past@ == past,
    {
        Desk { lua, past: Ghost(past) }
    }

    /// Ends the work.
    fn leave(&self)
        ensures
            happened(*self.lua, self.past@),
    {
        proof {
            use_type_invariant(self);
        }
    }

    /// Notes a step that was taken.
    fn note(&mut self, Ghost(step): Ghost<Step>, Ghost(outcome): Ghost<Outcome>)
        requires
            was_done(*old(self).lua, old(self).past@, Deed { step, outcome }),
        ensures
            *final(self).lua == *old(self).lua,
            final(self).past@.made == old(self).past@.made,
            final(self).past@.deeds == old(self).past@.deeds.push(Deed { step, outcome }),
    {
        let ghost before = self.past@;
        let ghost after = Past { deeds: before.deeds.push(Deed { step, outcome }), ..before };
        proof {
            use_type_invariant(&*self);
            lemma_still_done(*self.lua, before, after, Deed { step, outcome });
            assert forall|i: int| 0 <= i < after.deeds.len() implies was_done(
                *self.lua,
                after,
                #[trigger] after.deeds[i],
            ) by {
                if i < before.deeds.len() {
                    lemma_still_done(*self.lua, before, after, before.deeds[i]);
                }
            }
        }
        self.past = Ghost(after);
    }

    /// The table of global names.
    fn globals(&self) -> (r: Tab)
        ensures
            r.place@ == Place::Globals,
            self.owns(r),
    {
        Tab { table: given(globals_of, self.lua), place: Ghost(Place::Globals) }
    }

    /// Makes a table.
    fn make(&mut self) -> (r: Result<Tab, String>)
        ensures
            final(self).goes_on(*old(self)),
            followed(old(self).past@.deeds, final(self).past@.deeds, seq![Step::Make], fault_of(r)),
            r matches Ok(t) ==> final(self).owns(t) && t.place@ == Place::Made(
                old(self).past@.deeds.len(),
            ),
    {
        let got = given(new_table, self.lua);
        let ghost before = self.past@;
        let ghost n = before.deeds.len();
        proof {
            lemma_one_step(before.deeds, Step::Make, fault_of(got));
            use_type_invariant(&*self);
        }
        match got {
            Ok(table) => {
                let ghost deed = Deed { step: Step::Make, outcome: Outcome::Done };
                let ghost after = Past {
                    deeds: before.deeds.push(deed),
                    made: before.made.insert(n, table),
                };
                proof {
                    assert(!before.made.contains_key(n));
                    assert(was_done(*self.lua, after, deed));
                    assert forall|i: int| 0 <= i < after.deeds.len() implies was_done(
                        *self.lua,
                        after,
                        #[trigger] after.deeds[i],
                    ) by {
                        if i < before.deeds.len() {
                            lemma_still_done(*self.lua, before, after, before.deeds[i]);
                        }
                    }
                }
                self.past = Ghost(after);
                Ok(Tab { table, place: Ghost(Place::Made(n)) })
            },
            Err(e) => {
                self.note(Ghost(Step::Make), Ghost(Outcome::Fault(e@)));
                Err(e)
            },
        }
    }

    /// Gives a name a value in a table.
    fn put(&mut self, table: &Tab, name: &str, value: Entry<'_>) -> (r: Result<(), String>)
        requires
            old(self).owns(*table),
            value matches Entry::Table(t) ==> old(self).owns(*t),
        ensures
            final(self).goes_on(*old(self)),
            call_ensures(set_entry, (old(self).lua, table, name, value), r),
            followed(
                old(self).past@.deeds,
                final(self).past@.deeds,
                seq![Step::Put { table: table.place@, name: name@, item: item(value) }],
                fault_of(r),
            ),
    {
        let ghost step = Step::Put { table: table.place@, name: name@, item: item(value) };
        let ghost before = self.past@.deeds;
        let got = given4(set_entry, self.lua, table, name, value);
        self.note(Ghost(step), Ghost(outcome(fault_of(got))));
        proof {
            lemma_one_step(before, step, fault_of(got));
        }
        got
    }

    /// Makes one table the metatable of another.
    fn link(&mut self, table: &Tab, meta: Tab) -> (r: Result<(), String>)
        requires
            old(self).owns(*table),
            old(self).owns(meta),
        ensures
            final(self).goes_on(*old(self)),
            call_ensures(set_meta, (old(self).lua, table, meta), r),
            followed(
                old(self).past@.deeds,
                final(self).past@.deeds,
                seq![Step::Link { table: table.place@, meta: meta.place@ }],
                fault_of(r),
            ),
    {
        let ghost step = Step::Link { table: table.place@, meta: meta.place@ };
        let ghost before = self.past@.deeds;
        let got = given3(set_meta, self.lua, table, meta);
        self.note(Ghost(step), Ghost(outcome(fault_of(got))));
        proof {
            lemma_one_step(before, step, fault_of(got));
        }
        got
    }

    /// Forbids changes of a table.
    fn close(&mut self, table: &Tab)
        requires
            old(self).owns(*table),
        ensures
            final(self).goes_on(*old(self)),
            call_ensures(set_frozen, (old(self).lua, table), ()),
            followed(
                old(self).past@.deeds,
                final(self).past@.deeds,
                seq![Step::Close { table: table.place@ }],
                None,
            ),
    {
        let ghost step = Step::Close { table: table.place@ };
        let ghost before = self.past@.deeds;
        given2(set_frozen, self.lua, table);
        self.note(Ghost(step), Ghost(Outcome::Done));
        proof {
            lemma_one_step(before, step, None);
        }
    }

    /// Runs code for its definitions.
    fn define(&mut self, code: &str, chunk: &str) -> (r: Result<(), String>)
        ensures
            final(self).goes_on(*old(self)),
            call_ensures(exec_code, (old(self).lua, code, chunk), r),
            followed(
                old(self).past@.deeds,
                final(self).past@.deeds,
                seq![Step::Define { code: code@, chunk: chunk@ }],
                fault_of(r),
            ),
    {
        let ghost step = Step::Define { code: code@, chunk: chunk@ };
        let ghost before = self.past@.deeds;
        let got = given3(exec_code, self.lua, code, chunk);
        self.note(Ghost(step), Ghost(outcome(fault_of(got))));
        proof {
            lemma_one_step(before, step, fault_of(got));
        }
        got
    }

    /// Runs code that sees the names of a table, for its result.
    fn compute(&mut self, code: &str, chunk: &str, table: &Tab) -> (r: Result<
        Own<mlua::Value>,
        String,
    >)
        requires
            old(self).owns(*table),
        ensures
            final(self).goes_on(*old(self)),
            call_ensures(eval_code, (old(self).lua, code, chunk, table), r),
            r matches Ok(v) ==> v.home@ == *old(self).lua,
            final(self).past@.deeds == old(self).past@.deeds.push(
                Deed {
                    step: Step::Compute { code: code@, chunk: chunk@, table: table.place@ },
                    outcome: gave(r),
                },
            ),
    {
        let got = given4(eval_code, self.lua, code, chunk, table);
        let ghost step = Step::Compute { code: code@, chunk: chunk@, table: table.place@ };
        self.note(Ghost(step), Ghost(gave(got)));
        got
    }
}

proof fn lemma_one_step(before: Seq<Deed>, step: Step, fault: Option<Seq<char>>)
    ensures
        followed(
            before,
            before.push(Deed { step, outcome: outcome(fault) }),
            seq![step],
            fault,
        ),
{
    let after = before.push(Deed { step, outcome: outcome(fault) });
    match fault {
        None => {
            assert(after =~= before + done(seq![step]));
        },
        Some(e) => {
            assert(after =~= stopped(before, seq![step], 0, e));
        },
    }
}

/// Puts what a script can see into a table under a name. Nil is what an absent name has.
fn put_slot(desk: &mut Desk<'_>, table: &Tab, name: &str, slot: &Slot, vars: &Tab) -> (r: Result<
    (),
    String,
>)
    requires
        old(desk).owns(*table),
        old(desk).owns(*vars),
    ensures
        final(desk).goes_on(*old(desk)),
        followed(
            old(desk).past@.deeds,
            final(desk).past@.deeds,
            steps(name@, sight(*slot), table.place@, vars.place@, old(desk).past@.deeds.len()),
            fault_of(r),
        ),
    decreases slot, 0nat,
{
    let ghost before = desk.past@.deeds;
    match slot {
        Slot::Nil => {
            assert(before + done(seq![]) =~= before);
            Ok(())
        },
        Slot::Flag(b) => desk.put(table, name, Entry::Flag(*b)),
        Slot::Count(n) => desk.put(table, name, Entry::Count(*n)),
        Slot::Text(t) => desk.put(table, name, Entry::Text(t.as_str())),
        Slot::Active => desk.put(table, name, Entry::Table(vars)),
        Slot::Names(list) => {
            let ghost at = before.len();
            let ghost inside = steps_of(
                sights(list@),
                list@.len(),
                Place::Made(at),
                vars.place@,
                at + 1,
            );
            let ghost put = Step::Put {
                table: table.place@,
                name: name@,
                item: Item::Table(Place::Made(at)),
            };
            let ghost close = Step::Close { table: Place::Made(at) };
            let ghost all = steps(name@, sight(*slot), table.place@, vars.place@, at);
            proof {
                lemma_sight_names(*list);
                assert(all =~= seq![Step::Make] + (inside + (seq![close] + seq![put])));
                assert(all =~= (seq![Step::Make] + inside) + (seq![close] + seq![put]));
            }
            let inner = match desk.make() {
                Ok(t) => t,
                Err(e) => {
                    proof {
                        lemma_followed_until(
                            before,
                            desk.past@.deeds,
                            seq![Step::Make],
                            inside + (seq![close] + seq![put]),
                            e@,
                        );
                    }
                    return Err(e);
                },
            };
            let ghost made = desk.past@.deeds;
            let filled = put_slots(desk, &inner, list, vars);
            let ghost full = desk.past@.deeds;
            proof {
                lemma_followed_on(before, made, full, seq![Step::Make], inside, fault_of(filled));
            }
            if let Err(e) = filled {
                proof {
                    lemma_followed_until(
                        before,
                        full,
                        seq![Step::Make] + inside,
                        seq![close] + seq![put],
                        e@,
                    );
                }
                return Err(e);
            }
            desk.close(&inner);
            let ghost closed = desk.past@.deeds;
            let r = desk.put(table, name, Entry::Table(&inner));
            proof {
                lemma_followed_on(full, closed, desk.past@.deeds, seq![close], seq![put], fault_of(r));
                lemma_followed_on(
                    before,
                    full,
                    desk.past@.deeds,
                    seq![Step::Make] + inside,
                    seq![close] + seq![put],
                    fault_of(r),
                );
            }
            r
        },
    }
}

/// Puts named values into a table.
fn put_slots(desk: &mut Desk<'_>, table: &Tab, list: &Vec<(String, Slot)>, vars: &Tab) -> (r: Result<
    (),
    String,
>)
    requires
        old(desk).owns(*table),
        old(desk).owns(*vars),
    ensures
        final(desk).goes_on(*old(desk)),
        followed(
            old(desk).past@.deeds,
            final(desk).past@.deeds,
            steps_of(
                sights(list@),
                list@.len(),
                table.place@,
                vars.place@,
                old(desk).past@.deeds.len(),
            ),
            fault_of(r),
        ),
    decreases list, 1nat,
{
    let ghost before = desk.past@.deeds;
    let ghost at = before.len();
    let ghost seen = sights(list@);
    let mut i: usize = 0;
    assert(before + done(seq![]) =~= before);
    while i < list.len()
        invariant
            i <= list@.len(),
            seen == sights(list@),
            before == old(desk).past@.deeds,
            at == before.len(),
            desk.goes_on(*old(desk)),
            desk.owns(*table),
            desk.owns(*vars),
            followed(
                before,
                desk.past@.deeds,
                steps_of(seen, i as nat, table.place@, vars.place@, at),
                None,
            ),
        decreases list@.len() - i,
    {
        let ghost first = steps_of(seen, i as nat, table.place@, vars.place@, at);
        let ghost here = desk.past@.deeds;
        assert(here.len() == at + first.len());
        assert(decreases_to!(list => list@[i as int].1));
        let r = put_slot(desk, table, list[i].0.as_str(), &list[i].1, vars);
        let ghost next = steps(
            seen[i as int].0,
            seen[i as int].1,
            table.place@,
            vars.place@,
            here.len(),
        );
        assert(steps_of(seen, (i + 1) as nat, table.place@, vars.place@, at) == first + next);
        proof {
            lemma_followed_on(before, here, desk.past@.deeds, first, next, fault_of(r));
        }
        if let Err(e) = r {
            proof {
                lemma_steps_longer(
                    before,
                    desk.past@.deeds,
                    seen,
                    (i + 1) as nat,
                    seen.len(),
                    table.place@,
                    vars.place@,
                    e@,
                );
            }
            return Err(e);
        }
        i += 1;
    }
    Ok(())
}

proof fn lemma_steps_longer(
    a: Seq<Deed>,
    b: Seq<Deed>,
    list: Seq<(Seq<char>, Sight)>,
    k: nat,
    n: nat,
    table: Place,
    vars: Place,
    e: Seq<char>,
)
    requires
        k <= n <= list.len(),
        followed(a, b, steps_of(list, k, table, vars, a.len()), Some(e)),
    ensures
        followed(a, b, steps_of(list, n, table, vars, a.len()), Some(e)),
    decreases n - k,
{
    if k < n {
        let first = steps_of(list, k, table, vars, a.len());
        lemma_followed_until(
            a,
            b,
            first,
            steps(list[k as int].0, list[k as int].1, table, vars, a.len() + first.len()),
            e,
        );
        lemma_steps_longer(a, b, list, k + 1, n, table, vars, e);
    }
}

/// Whether this is made of what came of running code: the result without what a table holds
/// where it goes into a text, and with it otherwise.
pub closed spec fn taken_out(
    lua: mlua::Lua,
    form: Form,
    outcome: Outcome,
    r: Result<LuaValue, String>,
) -> bool {
    match outcome {
        Outcome::Gave(v) => match form {
            Form::Text => r matches Ok(x) && outlined(lua, v, x),
            Form::Value => held(lua, v, MAX_TABLE_DEPTH as nat, r),
            Form::Block => held(lua, v, MAX_TABLE_DEPTH as nat, r),
        },
        Outcome::Fault(e) => fault_of(r) == Some(e),
        Outcome::Done => false,
    }
}

/// The steps of setting up an interpreter: the table of its environment, and then the code whose
/// definitions scripts can use, in order, with what its errors name as the place.
pub open spec fn setup(codes: Seq<(Seq<char>, Seq<char>)>) -> Seq<Step> {
    seq![Step::Make] + codes.map_values(
        |c: (Seq<char>, Seq<char>)| Step::Define { code: c.0, chunk: c.1 },
    )
}

/// What is noted of code that was run for its definitions without a fault.
pub open spec fn defined_all(codes: Seq<(Seq<char>, Seq<char>)>) -> Seq<(Act, Reply)> {
    codes.map_values(|c: (Seq<char>, Seq<char>)| defined(c.0, c.1, None))
}

/// Whether making an interpreter can fail with this message: no table could be made in it.
pub open spec fn start_fails(m: Seq<char>) -> bool {
    exists|lua: mlua::Lua| #[trigger] refuses_table(lua, m)
}

/// How an interpreter stands: its past, the table of what scripts see, that of the environment
/// that is being computed, and the files.
pub struct Moment {
    pub past: Past,
    pub seen: Place,
    pub active: Place,
    /// What may be answered when a file is asked for.
    pub files: spec_fn(Seq<char>, bool, Reply) -> bool,
}

impl Moment {
    /// Whether scripts see the same as before.
    pub open spec fn same_tables(self, before: Moment) -> bool {
        &&& grows(before.past, self.past)
        &&& self.seen == before.seen
        &&& self.active == before.active
        &&& self.files == before.files
    }

    /// Whether this is what becomes of an interpreter, and what it answers, when it lets scripts
    /// see a context. Where that fails, scripts go on seeing what they saw.
    pub open spec fn shows(
        self,
        before: Moment,
        scene: Seq<(Seq<char>, Sight)>,
        vars: Seq<(Seq<char>, Sight)>,
        open: bool,
        r: Result<LuaValue, String>,
    ) -> bool {
        let at = before.past.deeds.len();
        &&& followed(
            before.past.deeds,
            self.past.deeds,
            build_steps(scene, vars, open, at),
            fault_of(r),
        )
        &&& grows(before.past, self.past)
        &&& self.files == before.files
        &&& match r {
            Ok(v) => {
                &&& v is Nil
                &&& self.active == Place::Made(at)
                &&& self.seen == Place::Made(at + vars_steps(vars, open, at).len())
            },
            Err(_) => self.same_tables(before),
        }
    }

    /// Whether this is what becomes of an interpreter, and what it answers, when it runs code:
    /// one deed, and what is made of its outcome.
    pub open spec fn runs(
        self,
        before: Moment,
        lua: mlua::Lua,
        form: Form,
        code: Seq<char>,
        chunk: Seq<char>,
        r: Result<LuaValue, String>,
    ) -> bool {
        let step = Step::Compute { code, chunk, table: before.seen };
        let outcome = self.past.deeds.last().outcome;
        &&& self.same_tables(before)
        &&& self.past.deeds == before.past.deeds.push(Deed { step, outcome })
        &&& taken_out(lua, form, outcome, r)
    }

    /// Whether this is what becomes of an interpreter when it takes one step that has no result.
    pub open spec fn steps_once(self, before: Moment, step: Step, fault: Option<Seq<char>>) -> bool {
        &&& self.same_tables(before)
        &&& followed(before.past.deeds, self.past.deeds, seq![step], fault)
    }

    /// Whether this is what becomes of an interpreter, and what it answers, when this is asked.
    pub open spec fn performs(
        self,
        before: Moment,
        lua: mlua::Lua,
        act: Act,
        r: Result<LuaValue, String>,
    ) -> bool {
        match act {
            Act::Build { scene, vars, open } => self.shows(before, scene, vars, open, r),
            Act::Assign { name, value } => (r matches Ok(v) ==> v is Nil) && self.steps_once(
                before,
                Step::Put { table: before.active, name, item: Item::Text(value) },
                fault_of(r),
            ),
            Act::Freeze => (r matches Ok(v) && v is Nil) && self.steps_once(
                before,
                Step::Close { table: before.active },
                None,
            ),
            Act::Run { form, code, chunk } => self.runs(before, lua, form, code, chunk, r),
            Act::Define { code, chunk } => (r matches Ok(v) ==> v is Nil) && self.steps_once(
                before,
                Step::Define { code, chunk },
                fault_of(r),
            ),
            Act::Connect { files } => (r matches Ok(v) && v is Nil) && self == (Moment {
                files,
                ..before
            }),
            Act::Read { path } => self == before && (before.files)(path, false, reply(r)),
            Act::ReadVars { path } => self == before && (before.files)(path, true, reply(r)),
        }
    }
}

/// What answers when a file is asked for.
pub trait Files {
    /// Whether this may be answered on a path, where the text or the variables are asked for.
    spec fn answers(&self, path: Seq<char>, vars: bool, reply: Reply) -> bool;

    /// The text of a file, as a value of a script.
    fn text(&self, path: &str) -> (r: Result<LuaValue, String>)
        ensures
            self.answers(path@, false, reply(r)),
    ;

    /// The variables of an environment file, as a value of a script.
    fn vars(&self, path: &str) -> (r: Result<LuaValue, String>)
        ensures
            self.answers(path@, true, reply(r)),
    ;
}

/// What may be answered when a file is asked for.
pub open spec fn answering<X: Files>(files: X) -> spec_fn(Seq<char>, bool, Reply) -> bool {
    |path: Seq<char>, vars: bool, reply: Reply| files.answers(path, vars, reply)
}

/// No files.
pub struct NoFiles;

impl Files for NoFiles {
    open spec fn answers(&self, path: Seq<char>, vars: bool, reply: Reply) -> bool {
        reply == Reply::Fault("files cannot be read here"@)
    }

    fn text(&self, path: &str) -> (r: Result<LuaValue, String>) {
        Err("files cannot be read here".to_owned())
    }

    fn vars(&self, path: &str) -> (r: Result<LuaValue, String>) {
        Err("files cannot be read here".to_owned())
    }
}

/// Whether an entry of a record tells what happened from one moment to the next.
pub open spec fn tells(
    lua: mlua::Lua,
    before: Moment,
    after: Moment,
    entry: (Act, Reply),
) -> bool {
    exists|r: Result<LuaValue, String>| #[trigger]
        after.performs(before, lua, entry.0, r) && reply(r) == entry.1
}

/// How an interpreter stands in which only the table of its environment was made. It has no
/// files.
pub open spec fn fresh(m: Moment) -> bool {
    &&& m.past.deeds == done(seq![Step::Make])
    &&& m.seen == Place::Globals
    &&& m.active == Place::Made(0)
    &&& m.files == answering(NoFiles)
}

/// Whether a record tells, entry by entry, what happened in an interpreter: one that was fresh at
/// the first of these moments, and whose past at the last one really happened.
spec fn chronicle(lua: mlua::Lua, log: Seq<(Act, Reply)>, moments: Seq<Moment>) -> bool {
    &&& moments.len() == log.len() + 1
    &&& fresh(moments[0])
    &&& forall|i: int|
        0 <= i < log.len() ==> tells(lua, moments[i], moments[i + 1], #[trigger] log[i])
    &&& happened(lua, moments.last().past)
}

/// Whether a record is genuine: there is an interpreter that was asked all of it, one after the
/// other, and answered so.
pub closed spec fn genuine(log: Seq<(Act, Reply)>) -> bool {
    exists|lua: mlua::Lua, moments: Seq<Moment>| #[trigger] chronicle(lua, log, moments)
}

/// Whether running code for its definitions can fail with this message, after other code was run
/// in the same interpreter.
pub open spec fn definition_fails(
    codes: Seq<(Seq<char>, Seq<char>)>,
    code: Seq<char>,
    chunk: Seq<char>,
    m: Seq<char>,
) -> bool {
    genuine(defined_all(codes).push(defined(code, chunk, Some(m))))
}

/// A record, and the moments between its entries.
struct Story {
    log: Seq<(Act, Reply)>,
    moments: Seq<Moment>,
}

/// What scripts see at the moment, and how that came.
struct Now {
    /// What scripts see.
    table: Tab,
    /// The environment that is being computed.
    vars: Tab,
    story: Ghost<Story>,
}

/// An interpreter in use.
struct Session<X: Files> {
    lua: mlua::Lua,
    now: Now,
    files: X,
}

/// The story with one more entry.
spec fn told(story: Story, act: Act, r: Result<LuaValue, String>, next: Moment) -> Story {
    Story { log: story.log.push((act, reply(r))), moments: story.moments.push(next) }
}

proof fn lemma_told(
    lua: mlua::Lua,
    story: Story,
    act: Act,
    r: Result<LuaValue, String>,
    next: Moment,
)
    requires
        chronicle(lua, story.log, story.moments),
        next.performs(story.moments.last(), lua, act, r),
        happened(lua, next.past),
    ensures
        ({
            let after = told(story, act, r, next);
            chronicle(lua, after.log, after.moments) && after.moments.last() == next
        }),
{
    let after = told(story, act, r, next);
    assert forall|i: int| 0 <= i < after.log.len() implies tells(
        lua,
        after.moments[i],
        after.moments[i + 1],
        #[trigger] after.log[i],
    ) by {
        if i < story.log.len() {
            assert(tells(lua, story.moments[i], story.moments[i + 1], story.log[i]));
            assert(after.moments[i + 1] == story.moments[i + 1]);
        } else {
            assert(after.log[i] == (act, reply(r)));
            assert(after.moments[i] == story.moments.last());
            assert(after.moments[i + 1] == next);
            assert(next.performs(story.moments.last(), lua, after.log[i].0, r));
        }
    }
}

impl<X: Files> Session<X> {
    /// The record tells what happened, up to how the interpreter stands.
    #[verifier::type_invariant]
    spec fn faithful(self) -> bool {
        let last = self.moment();
        &&& chronicle(self.lua, self.log(), self.now.story@.moments)
        &&& last.files == answering(self.files)
        &&& rightful(self.lua, last.past, self.now.table)
        &&& rightful(self.lua, last.past, self.now.vars)
        &&& last.seen == self.now.table.place@
        &&& last.active == self.now.vars.place@
    }

    /// How the interpreter stands.
    spec fn moment(self) -> Moment {
        self.now.story@.moments.last()
    }

    /// What was asked and answered so far.
    spec fn log(self) -> Seq<(Act, Reply)> {
        self.now.story@.log
    }

    /// What is noted is genuine.
    fn vouch(&self)
        ensures
            genuine(self.log()),
    {
        proof {
            use_type_invariant(self);
            assert(chronicle(self.lua, self.log(), self.now.story@.moments));
        }
    }

    /// Notes what was asked and answered, where scripts go on seeing what they saw.
    fn turn(
        &mut self,
        Ghost(act): Ghost<Act>,
        Ghost(r): Ghost<Result<LuaValue, String>>,
        Ghost(next): Ghost<Moment>,
    )
        requires
            next.performs(old(self).moment(), old(self).lua, act, r),
            happened(old(self).lua, next.past),
            next.same_tables(old(self).moment()),
        ensures
            final(self).lua == old(self).lua,
            final(self).files == old(self).files,
            final(self).log() == old(self).log().push((act, reply(r))),
            final(self).moment() == next,
    {
        let ghost story = told(self.now.story@, act, r, next);
        proof {
            use_type_invariant(&*self);
            lemma_told(self.lua, self.now.story@, act, r, next);
        }
        self.now.story = Ghost(story);
    }

    /// Notes what was asked and answered, where scripts see other tables from then on.
    fn turn_to(
        &mut self,
        table: Tab,
        vars: Tab,
        Ghost(act): Ghost<Act>,
        Ghost(r): Ghost<Result<LuaValue, String>>,
        Ghost(next): Ghost<Moment>,
    )
        requires
            next.performs(old(self).moment(), old(self).lua, act, r),
            happened(old(self).lua, next.past),
            next.files == old(self).moment().files,
            rightful(old(self).lua, next.past, table),
            rightful(old(self).lua, next.past, vars),
            next.seen == table.place@,
            next.active == vars.place@,
        ensures
            final(self).lua == old(self).lua,
            final(self).files == old(self).files,
            final(self).log() == old(self).log().push((act, reply(r))),
            final(self).moment() == next,
    {
        let ghost story = told(self.now.story@, act, r, next);
        proof {
            use_type_invariant(&*self);
            lemma_told(self.lua, self.now.story@, act, r, next);
        }
        self.now = Now { table, vars, story: Ghost(story) };
    }

    /// Whether this was asked and answered since.
    spec fn has_acted(self, before: Self, act: Act, r: Result<LuaValue, String>) -> bool {
        &&& self.lua == before.lua
        &&& self.files == before.files
        &&& self.log() == before.log().push((act, reply(r)))
        &&& self.moment().performs(before.moment(), before.lua, act, r)
    }

    /// Runs code for its definitions.
    fn define(&mut self, code: &str, chunk: &str) -> (r: Result<LuaValue, String>)
        ensures
            final(self).has_acted(*old(self), Act::Define { code: code@, chunk: chunk@ }, r),
    {
        proof {
            use_type_invariant(&*self);
        }
        let ghost was = self.moment();
        let mut desk = Desk::open(&self.lua, Ghost(was.past));
        let r = match desk.define(code, chunk) {
            Ok(()) => Ok(LuaValue::Nil),
            Err(e) => Err(e),
        };
        desk.leave();
        let ghost next = Moment { past: desk.past@, ..was };
        self.turn(Ghost(Act::Define { code: code@, chunk: chunk@ }), Ghost(r), Ghost(next));
        r
    }

    /// Lets scripts see a context, beside the global names.
    fn build(&mut self, ctx: &EvalContext, open: bool) -> (r: Result<LuaValue, String>)
        ensures
            final(self).has_acted(
                *old(self),
                Act::Build { scene: scene(*ctx), vars: seen_vars(ctx.active()), open },
                r,
            ),
    {
        proof {
            use_type_invariant(&*self);
        }
        let ghost was = self.moment();
        let ghost act = Act::Build { scene: scene(*ctx), vars: seen_vars(ctx.active()), open };
        let mut desk = Desk::open(&self.lua, Ghost(was.past));
        let built = build_tables(&mut desk, ctx, open);
        desk.leave();
        let ghost past = desk.past@;
        match built {
            Ok((table, vars)) => {
                let r: Result<LuaValue, String> = Ok(LuaValue::Nil);
                let ghost next = Moment { past, seen: table.place@, active: vars.place@, ..was };
                self.turn_to(table, vars, Ghost(act), Ghost(r), Ghost(next));
                r
            },
            Err(e) => {
                let r: Result<LuaValue, String> = Err(e);
                let ghost next = Moment { past, ..was };
                self.turn(Ghost(act), Ghost(r), Ghost(next));
                r
            },
        }
    }

    /// Runs code and takes its result out of the interpreter.
    fn run(&mut self, form: Form, code: &str, chunk: &str) -> (r: Result<LuaValue, String>)
        ensures
            final(self).has_acted(
                *old(self),
                Act::Run { form, code: code@, chunk: chunk@ },
                r,
            ),
    {
        proof {
            use_type_invariant(&*self);
        }
        let ghost was = self.moment();
        let mut desk = Desk::open(&self.lua, Ghost(was.past));
        let got = desk.compute(code, chunk, &self.now.table);
        desk.leave();
        let ghost next = Moment { past: desk.past@, ..was };
        let r = match got {
            Ok(value) => match form {
                Form::Text => Ok(outline_of(&self.lua, value)),
                Form::Value => contents_of(&self.lua, value, MAX_TABLE_DEPTH),
                Form::Block => contents_of(&self.lua, value, MAX_TABLE_DEPTH),
            },
            Err(e) => Err(e),
        };
        self.turn(Ghost(Act::Run { form, code: code@, chunk: chunk@ }), Ghost(r), Ghost(next));
        r
    }

    /// Gives a variable a value.
    fn assign(&mut self, name: &str, value: &str) -> (r: Result<LuaValue, String>)
        ensures
            final(self).has_acted(*old(self), Act::Assign { name: name@, value: value@ }, r),
    {
        proof {
            use_type_invariant(&*self);
        }
        let ghost was = self.moment();
        let mut desk = Desk::open(&self.lua, Ghost(was.past));
        let r = match desk.put(&self.now.vars, name, Entry::Text(value)) {
            Ok(()) => Ok(LuaValue::Nil),
            Err(e) => Err(e),
        };
        desk.leave();
        let ghost next = Moment { past: desk.past@, ..was };
        self.turn(Ghost(Act::Assign { name: name@, value: value@ }), Ghost(r), Ghost(next));
        r
    }

    /// Forbids further changes of the environment that is being computed.
    fn freeze(&mut self) -> (r: Result<LuaValue, String>)
        ensures
            final(self).has_acted(*old(self), Act::Freeze, r),
    {
        proof {
            use_type_invariant(&*self);
        }
        let ghost was = self.moment();
        let mut desk = Desk::open(&self.lua, Ghost(was.past));
        desk.close(&self.now.vars);
        desk.leave();
        let r: Result<LuaValue, String> = Ok(LuaValue::Nil);
        let ghost next = Moment { past: desk.past@, ..was };
        self.turn(Ghost(Act::Freeze), Ghost(r), Ghost(next));
        r
    }

    /// Does what is asked.
    fn perform(&mut self, order: Order<'_>) -> (r: Result<LuaValue, String>)
        ensures
            final(self).has_acted(*old(self), order@, r),
    {
        match order {
            Order::Build { ctx, open } => self.build(ctx, open),
            Order::Assign { name, value } => self.assign(name, value),
            Order::Freeze => self.freeze(),
            Order::Run { form, code, chunk } => self.run(form, code, chunk),
            Order::Read { path } => {
                let r = self.files.text(path);
                proof {
                    use_type_invariant(&*self);
                }
                let ghost was = self.moment();
                self.turn(Ghost(Act::Read { path: path@ }), Ghost(r), Ghost(was));
                r
            },
            Order::ReadVars { path } => {
                let r = self.files.vars(path);
                proof {
                    use_type_invariant(&*self);
                }
                let ghost was = self.moment();
                self.turn(Ghost(Act::ReadVars { path: path@ }), Ghost(r), Ghost(was));
                r
            },
        }
    }
}

impl Session<NoFiles> {
    /// An interpreter whose environment is the table that was made for it, if it was made.
    fn started(lua: mlua::Lua, made: Result<Own<mlua::Table>, String>) -> (r: Result<Self, String>)
        requires
            call_ensures(new_table, (&lua,), made),
        ensures
            match made {
                Ok(_) => r matches Ok(e) && {
                    &&& e.log() == Seq::<(Act, Reply)>::empty()
                    &&& fresh(e.moment())
                    &&& e.lua == lua
                },
                Err(m) => r == Err::<Self, String>(m),
            },
    {
        let ghost got = made;
        match made {
            Ok(table) => {
                let ghost deed = Deed { step: Step::Make, outcome: Outcome::Done };
                let ghost past = Past {
                    deeds: seq![deed],
                    made: Map::empty().insert(0nat, table),
                };
                let ghost first = Moment {
                    past,
                    seen: Place::Globals,
                    active: Place::Made(0),
                    files: answering(NoFiles),
                };
                let globals = Tab { table: given(globals_of, &lua), place: Ghost(Place::Globals) };
                let vars = Tab { table, place: Ghost(Place::Made(0)) };
                let ghost story = Story { log: seq![], moments: seq![first] };
                proof {
                    assert(call_ensures(new_table, (&lua,), got));
                    assert(past.deeds =~= done(seq![Step::Make]));
                    assert(was_done(lua, past, deed));
                    assert(happened(lua, past));
                    assert(chronicle(lua, story.log, story.moments));
                }
                let now = Now { table: globals, vars, story: Ghost(story) };
                Ok(Session { lua, now, files: NoFiles })
            },
            Err(e) => Err(e),
        }
    }
}

/// Makes the tables of what a script sees, and of the environment that is being computed.
fn build_tables(desk: &mut Desk<'_>, ctx: &EvalContext, open: bool) -> (r: Result<
    (Tab, Tab),
    String,
>)
    ensures
        final(desk).goes_on(*old(desk)),
        followed(
            old(desk).past@.deeds,
            final(desk).past@.deeds,
            build_steps(
                scene(*ctx),
                seen_vars(ctx.active()),
                open,
                old(desk).past@.deeds.len(),
            ),
            fault_of(r),
        ),
        r matches Ok((table, vars)) ==> {
            let at = old(desk).past@.deeds.len();
            &&& final(desk).owns(table)
            &&& final(desk).owns(vars)
            &&& vars.place@ == Place::Made(at)
            &&& table.place@ == Place::Made(
                at + vars_steps(seen_vars(ctx.active()), open, at).len(),
            )
        },
{
    let ghost before = desk.past@.deeds;
    let ghost at = before.len();
    let ghost first = vars_steps(seen_vars(ctx.active()), open, at);
    let ghost second = scene_steps(scene(*ctx), Place::Made(at), at + first.len());
    let made = build_vars(desk, ctx.active_env(), open);
    let ghost middle = desk.past@.deeds;
    let vars = match made {
        Ok(t) => t,
        Err(e) => {
            proof {
                lemma_followed_until(before, middle, first, second, e@);
            }
            return Err(e);
        },
    };
    assert(middle.len() == at + first.len());
    let built = build_scene(desk, ctx, &vars);
    proof {
        lemma_followed_on(before, middle, desk.past@.deeds, first, second, fault_of(built));
    }
    match built {
        Ok(table) => Ok((table, vars)),
        Err(e) => Err(e),
    }
}

/// An interpreter with what its scripts see at the moment.
pub struct LuaEvaluator {
    session: Session<NoFiles>,
}

impl LuaEvaluator {
    /// How the interpreter stands.
    pub closed spec fn moment(self) -> Moment {
        self.session.moment()
    }

    /// The interpreter.
    pub closed spec fn engine(self) -> mlua::Lua {
        self.session.lua
    }

    /// Whether the interpreter was only set up with this code: nothing was asked of it yet, and
    /// scripts see the global names only.
    pub open spec fn ready_with(self, codes: Seq<(Seq<char>, Seq<char>)>) -> bool {
        &&& self.log() == defined_all(codes)
        &&& genuine(self.log())
        &&& self.moment().past.deeds == done(setup(codes))
        &&& self.moment().seen == Place::Globals
        &&& self.moment().active == Place::Made(0)
    }

    /// The record is genuine.
    pub(crate) fn vouch(&self)
        ensures
            genuine(self.log()),
    {
        self.session.vouch();
    }

    /// An interpreter whose scripts see the global names only. There is none only where no table
    /// can be made in a new interpreter.
    pub fn new() -> (r: Result<Self, String>)
        ensures
            r matches Ok(e) ==> e.ready_with(seq![]),
            r matches Err(m) ==> start_fails(m@),
    {
        let lua = new_lua();
        let ghost engine = lua;
        let made = given(new_table, &lua);
        assert(made matches Err(m) ==> refuses_table(engine, m@));
        proof {
            assert(setup(seq![]) =~= seq![Step::Make]);
            assert(defined_all(seq![]) =~= Seq::<(Act, Reply)>::empty());
        }
        match Session::started(lua, made) {
            Ok(session) => {
                session.vouch();
                Ok(LuaEvaluator { session })
            },
            Err(e) => {
                assert(refuses_table(engine, e@));
                Err(e)
            },
        }
    }

    /// Runs code whose definitions later scripts can use.
    pub fn load_inline(&mut self, code: &str) -> (r: Result<(), String>)
        ensures
            final(self).has_loaded(*old(self), code@, "lua"@, fault_of(r)),
    {
        self.load(code, "lua")
    }

    /// Runs the code of a file whose definitions later scripts can use.
    pub fn load_file(&mut self, path: &str, code: &str) -> (r: Result<(), String>)
        ensures
            final(self).has_loaded(*old(self), code@, path@, fault_of(r)),
    {
        self.load(code, path)
    }

    /// Whether this is what becomes of an interpreter that runs code for its definitions.
    pub open spec fn has_loaded(
        self,
        before: LuaEvaluator,
        code: Seq<char>,
        chunk: Seq<char>,
        fault: Option<Seq<char>>,
    ) -> bool {
        &&& self.engine() == before.engine()
        &&& self.log() == before.log().push(defined(code, chunk, fault))
        &&& genuine(self.log())
        &&& self.moment().steps_once(before.moment(), Step::Define { code, chunk }, fault)
    }

    /// Runs code for its definitions.
    fn load(&mut self, code: &str, chunk: &str) -> (r: Result<(), String>)
        ensures
            final(self).has_loaded(*old(self), code@, chunk@, fault_of(r)),
    {
        let r = match self.session.define(code, chunk) {
            Ok(_) => Ok(()),
            Err(e) => Err(e),
        };
        self.session.vouch();
        r
    }
}

/// What becomes of an interpreter that was set up with some code when it runs more code for its
/// definitions.
pub proof fn lemma_defined(
    before: LuaEvaluator,
    after: LuaEvaluator,
    codes: Seq<(Seq<char>, Seq<char>)>,
    code: Seq<char>,
    chunk: Seq<char>,
    fault: Option<Seq<char>>,
)
    requires
        before.ready_with(codes),
        after.has_loaded(before, code, chunk, fault),
    ensures
        match fault {
            None => after.ready_with(codes.push((code, chunk))),
            Some(m) => definition_fails(codes, code, chunk, m),
        },
{
    let step = Step::Define { code, chunk };
    if fault is None {
        let more = codes.push((code, chunk));
        assert(setup(more) =~= setup(codes) + seq![step]);
        assert(done(setup(more)) =~= done(setup(codes)) + done(seq![step]));
        assert(defined_all(more) =~= defined_all(codes).push(defined(code, chunk, None)));
    }
}

/// Makes the environment that is being computed.
fn build_vars(desk: &mut Desk<'_>, env: &NameMap<String>, open: bool) -> (r: Result<Tab, String>)
    ensures
        final(desk).goes_on(*old(desk)),
        followed(
            old(desk).past@.deeds,
            final(desk).past@.deeds,
            vars_steps(seen_vars(*env), open, old(desk).past@.deeds.len()),
            fault_of(r),
        ),
        r matches Ok(t) ==> t.place@ == Place::Made(old(desk).past@.deeds.len()) && final(desk).owns(t),
{
    let ghost before = desk.past@.deeds;
    let ghost at = before.len();
    let list = show_vars(env);
    let ghost inside = steps_of(
        sights(list@),
        list@.len(),
        Place::Made(at),
        Place::Made(at),
        at + 1,
    );
    let ghost end = if open {
        seq![]
    } else {
        seq![Step::Close { table: Place::Made(at) }]
    };
    let ghost all = vars_steps(seen_vars(*env), open, at);
    proof {
        assert(sights(list@).len() == list@.len());
        assert(all == (seq![Step::Make] + inside) + end);
        assert(all =~= seq![Step::Make] + (inside + end));
    }
    let vars = match desk.make() {
        Ok(t) => t,
        Err(e) => {
            proof {
                lemma_followed_until(before, desk.past@.deeds, seq![Step::Make], inside + end, e@);
            }
            return Err(e);
        },
    };
    let ghost made = desk.past@.deeds;
    let filled = put_slots(desk, &vars, &list, &vars);
    let ghost full = desk.past@.deeds;
    proof {
        lemma_followed_on(before, made, full, seq![Step::Make], inside, fault_of(filled));
    }
    if let Err(e) = filled {
        proof {
            lemma_followed_until(before, full, seq![Step::Make] + inside, end, e@);
        }
        return Err(e);
    }
    if !open {
        desk.close(&vars);
    }
    assert(full + done(seq![]) =~= full);
    proof {
        lemma_followed_on(before, full, desk.past@.deeds, seq![Step::Make] + inside, end, None);
    }
    Ok(vars)
}

/// Makes the table of what a script sees.
fn build_scene(desk: &mut Desk<'_>, ctx: &EvalContext, vars: &Tab) -> (r: Result<Tab, String>)
    requires
        old(desk).owns(*vars),
    ensures
        final(desk).goes_on(*old(desk)),
        followed(
            old(desk).past@.deeds,
            final(desk).past@.deeds,
            scene_steps(scene(*ctx), vars.place@, old(desk).past@.deeds.len()),
            fault_of(r),
        ),
        r matches Ok(t) ==> t.place@ == Place::Made(old(desk).past@.deeds.len()) && final(desk).owns(t),
{
    let ghost before = desk.past@.deeds;
    let ghost at = before.len();
    let list = show(ctx);
    let ghost inside = steps_of(sights(list@), list@.len(), Place::Made(at), vars.place@, at + 1);
    let ghost filled_plan = seq![Step::Make] + inside;
    let ghost meta_place = Place::Made(at + filled_plan.len());
    let ghost index = Step::Put {
        table: meta_place,
        name: "__index"@,
        item: Item::Table(Place::Globals),
    };
    let ghost link = Step::Link { table: Place::Made(at), meta: meta_place };
    let ghost all = scene_steps(scene(*ctx), vars.place@, at);
    proof {
        assert(sights(list@).len() == list@.len());
        assert(all == filled_plan + seq![Step::Make, index, link]);
        assert(all =~= seq![Step::Make] + (inside + seq![Step::Make, index, link]));
        assert(all =~= (filled_plan + seq![Step::Make]) + seq![index, link]);
        assert(all =~= (filled_plan + seq![Step::Make] + seq![index]) + seq![link]);
    }
    let table = match desk.make() {
        Ok(t) => t,
        Err(e) => {
            proof {
                lemma_followed_until(
                    before,
                    desk.past@.deeds,
                    seq![Step::Make],
                    inside + seq![Step::Make, index, link],
                    e@,
                );
            }
            return Err(e);
        },
    };
    let ghost made = desk.past@.deeds;
    let filled = put_slots(desk, &table, &list, vars);
    let ghost full = desk.past@.deeds;
    proof {
        lemma_followed_on(before, made, full, seq![Step::Make], inside, fault_of(filled));
    }
    if let Err(e) = filled {
        proof {
            lemma_followed_until(before, full, filled_plan, seq![Step::Make, index, link], e@);
        }
        return Err(e);
    }
    let second = desk.make();
    let ghost two = desk.past@.deeds;
    proof {
        lemma_followed_on(before, full, two, filled_plan, seq![Step::Make], fault_of(second));
    }
    let meta = match second {
        Ok(t) => t,
        Err(e) => {
            proof {
                lemma_followed_until(
                    before,
                    two,
                    filled_plan + seq![Step::Make],
                    seq![index, link],
                    e@,
                );
            }
            return Err(e);
        },
    };
    let globals = desk.globals();
    let indexed = desk.put(&meta, "__index", Entry::Table(&globals));
    let ghost three = desk.past@.deeds;
    proof {
        lemma_followed_on(
            before,
            two,
            three,
            filled_plan + seq![Step::Make],
            seq![index],
            fault_of(indexed),
        );
    }
    if let Err(e) = indexed {
        proof {
            lemma_followed_until(
                before,
                three,
                filled_plan + seq![Step::Make] + seq![index],
                seq![link],
                e@,
            );
        }
        return Err(e);
    }
    let linked = desk.link(&table, meta);
    proof {
        lemma_followed_on(
            before,
            three,
            desk.past@.deeds,
            filled_plan + seq![Step::Make] + seq![index],
            seq![link],
            fault_of(linked),
        );
    }
    match linked {
        Ok(()) => Ok(table),
        Err(e) => Err(e),
    }
}

impl Scripts for LuaEvaluator {
    closed spec fn log(&self) -> Seq<(Act, Reply)> {
        self.session.log()
    }

    fn perform(&mut self, order: Order<'_>) -> (r: Result<LuaValue, String>)
        ensures
            final(self).engine() == old(self).engine(),
            final(self).moment().performs(old(self).moment(), old(self).engine(), order@, r),
    {
        self.session.perform(order)
    }
}

/// A way to read files.
pub struct FileReader<F: Fn(&str) -> Result<Vec<u8>, String>> {
    read: F,
}

impl<F: Fn(&str) -> Result<Vec<u8>, String>> FileReader<F> {
    #[verifier::type_invariant]
    spec fn can_read(self) -> bool {
        forall|path: &str| #[trigger] call_requires(self.read, (path,))
    }

    /// Reads files with a function.
    pub fn new(read: F) -> (r: Self)
        requires
            forall|path: &str| #[trigger] call_requires(read, (path,)),
        ensures
            forall|path: &str, got: Result<Vec<u8>, String>| #[trigger]
                r.gives(path, got) == call_ensures(read, (path,), got),
    {
        FileReader { read }
    }

    /// What reading a file may give.
    pub closed spec fn gives(self, path: &str, got: Result<Vec<u8>, String>) -> bool {
        call_ensures(self.read, (path,), got)
    }

    /// The contents of a file.
    pub fn read(&self, path: &str) -> (r: Result<Vec<u8>, String>)
        ensures
            self.gives(path, r),
    {
        proof {
            use_type_invariant(self);
        }
        (self.read)(path)
    }

    /// The text of a file.
    pub fn read_string(&self, path: &str) -> (r: Result<String, String>)
        ensures
            exists|got: Result<Vec<u8>, String>| #[trigger] self.gives(path, got) && text_in(got, r),
    {
        let got = self.read(path);
        let ghost seen = got;
        let r = match got {
            Ok(data) => given(text_of_bytes, data),
            Err(e) => Err(e),
        };
        assert(self.gives(path, seen) && text_in(seen, r));
        r
    }

    /// Whether this may be the text of a file, as a value of a script.
    pub open spec fn answers_text(self, path: &str, r: Result<LuaValue, String>) -> bool {
        exists|got: Result<Vec<u8>, String>| #[trigger]
            self.gives(path, got) && match r {
                Ok(v) => v matches LuaValue::String(LuaText::Text(t)) && text_in(got, Ok(t)),
                Err(m) => text_in(got, Err(m)),
            }
    }

    /// Whether these may be the variables of an environment file, as a value of a script.
    pub open spec fn answers_vars(self, path: &str, r: Result<LuaValue, String>) -> bool {
        exists|got: Result<Vec<u8>, String>| #[trigger]
            self.gives(path, got) && match (got, r) {
                (Ok(data), Ok(v)) => exists|vars: NameMap<String>| #[trigger]
                    file_vars(data@, vars) && (v matches LuaValue::Table(entries) && lists_vars(
                        entries@,
                        vars,
                        vars.keys().len() as int,
                    )),
                (Err(e), Err(m)) => m == e,
                _ => false,
            }
    }

    /// Whether this may be answered when a file is asked for: its text, or its variables.
    pub open spec fn may_answer(self, path: Seq<char>, vars: bool, reply: Reply) -> bool {
        if vars {
            exists|p: &str, r: Result<LuaValue, String>| #[trigger]
                self.answers_vars(p, r) && p@ == path && reply == crate::lua_eval::reply(r)
        } else {
            exists|p: &str, r: Result<LuaValue, String>| #[trigger]
                self.answers_text(p, r) && p@ == path && reply == crate::lua_eval::reply(r)
        }
    }

    /// The text of a file, as a value of a script.
    fn read_text(&self, path: &str) -> (r: Result<LuaValue, String>)
        ensures
            self.answers_text(path, r),
    {
        match self.read_string(path) {
            Ok(text) => Ok(LuaValue::String(LuaText::Text(text))),
            Err(e) => Err(e),
        }
    }

    /// The variables of an environment file; those that cannot be read are left out.
    fn read_vars(&self, path: &str) -> (r: Result<LuaValue, String>)
        ensures
            self.answers_vars(path, r),
    {
        let got = self.read(path);
        match got {
            Ok(data) => {
                let vars = load_env_file(Some(&data));
                let n: usize = vars.len();
                let mut entries: Vec<(LuaValue, LuaValue)> = Vec::new();
                let mut i: usize = 0;
                while i < n
                    invariant
                        i <= n,
                        n == vars.keys().len(),
                        vars.well_formed(),
                        lists_vars(entries@, vars, i as int),
                    decreases n - i,
                {
                    let name = LuaValue::String(LuaText::Text(vars.key_at(i).clone()));
                    let text = LuaValue::String(LuaText::Text(vars.value_at(i).clone()));
                    entries.push((name, text));
                    i += 1;
                }
                assert(file_vars(data@, vars));
                Ok(LuaValue::Table(entries))
            },
            Err(e) => Err(e),
        }
    }
}

/// Whether this is what was said of bytes that are no text.
pub closed spec fn no_text(data: Vec<u8>, m: String) -> bool {
    call_ensures(text_of_bytes, (data,), Err(m))
}

/// Whether a text is that of the contents of a file, if they are a text.
pub open spec fn text_in(got: Result<Vec<u8>, String>, text: Result<String, String>) -> bool {
    match (got, text) {
        (Ok(data), Ok(t)) => valid_utf8(data@) && t@ == decode_utf8(data@),
        (Ok(data), Err(m)) => !valid_utf8(data@) && no_text(data, m),
        (Err(e), Err(m)) => m == e,
        (Err(_), Ok(_)) => false,
    }
}

/// Whether these are the variables of an environment file.
pub open spec fn file_vars(data: Seq<u8>, vars: NameMap<String>) -> bool {
    vars.well_formed() && exists|items: Seq<Result<(String, String), String>>|
        texts(vars@) == #[trigger] readable_env(items, items.len()) && read_from(items, data)
}

/// Whether entries are the first `n` variables, in order.
pub open spec fn lists_vars(
    entries: Seq<(LuaValue, LuaValue)>,
    vars: NameMap<String>,
    n: int,
) -> bool {
    &&& entries.len() == n
    &&& forall|i: int|
        0 <= i < n ==> {
            &&& (#[trigger] entries[i]).0 matches LuaValue::String(LuaText::Text(k)) && k@
                == vars.keys()[i]
            &&& entries[i].1 matches LuaValue::String(LuaText::Text(t)) && t@ == vars.values()[i]@
        }
}

/// `String::from_utf8`: the text of bytes, if they are one.
#[verifier::external_body]
fn text_of_bytes(data: Vec<u8>) -> (r: Result<String, String>)
    ensures
        r is Ok <==> valid_utf8(data@),
        r matches Ok(s) ==> s@ == decode_utf8(data@),
{
    String::from_utf8(data).map_err(|e| e.to_string())
}

impl<'a, F: Fn(&str) -> Result<Vec<u8>, String>> Files for &'a FileReader<F> {
    open spec fn answers(&self, path: Seq<char>, vars: bool, reply: Reply) -> bool {
        (**self).may_answer(path, vars, reply)
    }

    fn text(&self, path: &str) -> (r: Result<LuaValue, String>) {
        let r = self.read_text(path);
        assert(self.answers_text(path, r));
        r
    }

    fn vars(&self, path: &str) -> (r: Result<LuaValue, String>) {
        let r = self.read_vars(path);
        assert(self.answers_vars(path, r));
        r
    }
}

/// What is noted where files can be read from then on.
pub open spec fn connected<F: Fn(&str) -> Result<Vec<u8>, String>>(files: FileReader<F>) -> (
    Act,
    Reply,
) {
    (Act::Connect { files: answering(&files) }, Reply::Value(LuaValue::Nil))
}

/// An interpreter together with a way to read files.
pub struct WithFiles<'a, F: Fn(&str) -> Result<Vec<u8>, String>> {
    session: Session<&'a FileReader<F>>,
}

impl<'a, F: Fn(&str) -> Result<Vec<u8>, String>> WithFiles<'a, F> {
    /// How the interpreter stands.
    pub closed spec fn moment(self) -> Moment {
        self.session.moment()
    }

    /// The interpreter.
    pub closed spec fn engine(self) -> mlua::Lua {
        self.session.lua
    }

    /// Puts an interpreter and a way to read files together.
    pub fn new(evaluator: LuaEvaluator, files: &'a FileReader<F>) -> (r: Self)
        ensures
            r.log() == evaluator.log().push(connected(*files)),
            r.moment() == (Moment { files: answering(files), ..evaluator.moment() }),
            r.engine() == evaluator.engine(),
    {
        let ghost was = evaluator.session.now.story@;
        let ghost act = Act::Connect { files: answering(files) };
        let ghost next = Moment { files: answering(files), ..was.moments.last() };
        let ghost done: Result<LuaValue, String> = Ok(LuaValue::Nil);
        proof {
            use_type_invariant(&evaluator.session);
            assert(next.performs(was.moments.last(), evaluator.session.lua, act, done));
            lemma_told(evaluator.session.lua, was, act, done, next);
        }
        let Session { lua, now, files: _ } = evaluator.session;
        let Now { table, vars, story: _ } = now;
        let now = Now { table, vars, story: Ghost(told(was, act, done, next)) };
        WithFiles { session: Session { lua, now, files } }
    }

    /// The record is genuine.
    pub(crate) fn vouch(&self)
        ensures
            genuine(self.log()),
    {
        self.session.vouch();
    }
}

impl<'a, F: Fn(&str) -> Result<Vec<u8>, String>> Scripts for WithFiles<'a, F> {
    closed spec fn log(&self) -> Seq<(Act, Reply)> {
        self.session.log()
    }

    fn perform(&mut self, order: Order<'_>) -> (r: Result<LuaValue, String>)
        ensures
            final(self).engine() == old(self).engine(),
            final(self).moment().performs(old(self).moment(), old(self).engine(), order@, r),
    {
        self.session.perform(order)
    }
}

} // verus!
