//! What scripts see of a context.
use vstd::prelude::*;
use crate::lua_eval::{
    build_steps, done, scene_steps, show, sight, sights, steps, steps_of, stopped, vars_steps, Act,
    DepInfo, EvalContext, Form, Item, Moment, Place, ServiceEvalContext, Sight, Slot, Step,
};
use crate::lua_value::LuaValue;
use crate::config::load::{general_context, service_context};
use crate::name_map::NameMap;

verus! {

/// Whether a script sees these variables: each name with its value, and no others.
pub open spec fn sees_vars(s: Sight, m: NameMap<String>) -> bool {
    s matches Sight::Names(list) && list.len() == m.keys().len() && forall|i: int|
        0 <= i < list.len() ==> #[trigger] list[i] == (m.keys()[i], Sight::Text(m.values()[i]@))
}

/// Whether a script sees a service or a hook: its name, its environment before any file and
/// setting, the variables of its file, and under `env` something else.
pub open spec fn sees_service(s: Sight, c: ServiceEvalContext, env: Sight) -> bool {
    s matches Sight::Names(list) && {
        &&& list.len() == 4
        &&& list[0] == ("name"@, Sight::Text(c.name@))
        &&& list[1].0 == "raw_env"@ && sees_vars(list[1].1, c.raw_env)
        &&& list[2].0 == "env_file"@ && sees_vars(list[2].1, c.env_file)
        &&& list[3] == ("env"@, env)
    }
}

/// Whether a script sees what is known of a dependency.
pub open spec fn sees_dependency(s: Sight, d: DepInfo) -> bool {
    s matches Sight::Names(list) && {
        &&& list.len() == 5
        &&& list[0] == ("status"@, Sight::Text(d.status@))
        &&& list[1].0 == "exit_code"@
        &&& d.exit_code is None ==> list[1].1 == Sight::Nil
        &&& d.exit_code matches Some(c) ==> list[1].1 == Sight::Count(c as int)
        &&& list[2] == ("initialized"@, Sight::Flag(d.initialized))
        &&& list[3] == ("restart_count"@, Sight::Count(d.restart_count as int))
        &&& list[4].0 == "env"@ && sees_vars(list[4].1, d.env)
    }
}

/// A script sees five things by name: the environment that is being computed, the service, the
/// hook, the dependencies and the environment of the daemon. What there is not is nil. In a hook
/// the environment that is being computed is that of the hook, and that of the service is fixed.
pub proof fn law_scripts_see_the_context(ctx: EvalContext, r: Vec<(String, Slot)>, k: int)
    requires
        call_ensures(show, (&ctx,), r),
    ensures
        r@.len() == 5,
        r@[0].0@ == "env"@ && sight(r@[0].1) == Sight::Active,
        r@[1].0@ == "service"@ && match (ctx.service, ctx.hook) {
            (None, _) => sight(r@[1].1) == Sight::Nil,
            (Some(s), None) => sees_service(sight(r@[1].1), s, Sight::Active),
            (Some(s), Some(_)) => exists|env: Sight|
                #![trigger sees_vars(env, s.env)]
                sees_vars(env, s.env) && sees_service(sight(r@[1].1), s, env),
        },
        r@[2].0@ == "hook"@ && match ctx.hook {
            None => sight(r@[2].1) == Sight::Nil,
            Some(h) => sees_service(sight(r@[2].1), h, Sight::Active),
        },
        r@[3].0@ == "deps"@ && (sight(r@[3].1) matches Sight::Names(list) && list.len()
            == ctx.deps.keys().len() && (0 <= k < list.len() ==> list[k].0 == ctx.deps.keys()[k]
            && sees_dependency(list[k].1, ctx.deps.values()[k]))),
        r@[4].0@ == "kepler"@ && (sight(r@[4].1) matches Sight::Names(list) && list.len() == 1
            && list[0].0 == "env"@ && sees_vars(list[0].1, ctx.kepler_env)),
{
    let all = sights(r@);
    assert(all.len() == r@.len());
    assert(all[0] == (r@[0].0@, sight(r@[0].1)));
    assert(all[1] == (r@[1].0@, sight(r@[1].1)));
    assert(all[2] == (r@[2].0@, sight(r@[2].1)));
    assert(all[3] == (r@[3].0@, sight(r@[3].1)));
    assert(all[4] == (r@[4].0@, sight(r@[4].1)));
    if let (Some(s), Some(_)) = (ctx.service, ctx.hook) {
        let env = Sight::Names(crate::lua_eval::seen_vars(s.env));
        assert(sees_vars(env, s.env));
    }
}

/// What is being computed is the environment of the hook, where there is one; else that of the
/// service; else the general one.
pub proof fn law_what_is_being_computed(ctx: EvalContext, r: &NameMap<String>)
    requires
        call_ensures(EvalContext::active_env, (&ctx,), r),
    ensures
        ctx.hook matches Some(h) ==> *r == h.env,
        ctx.hook is None ==> (ctx.service matches Some(s) ==> *r == s.env),
        ctx.hook is None && ctx.service is None ==> *r == ctx.env,
{
}

/// While a service is read its scripts see its name, the environment of the daemon as that of the
/// daemon and as their own, and nothing else; there is no hook.
pub proof fn law_scripts_of_a_service_that_is_read(
    name: &str,
    sys_env: NameMap<String>,
    ctx: EvalContext,
    r: Vec<(String, Slot)>,
)
    requires
        call_ensures(service_context, (name, &sys_env), ctx),
        call_ensures(show, (&ctx,), r),
    ensures
        r@.len() == 5,
        sight(r@[1].1) matches Sight::Names(list) && list[0] == ("name"@, Sight::Text(name@))
            && list[3] == ("env"@, Sight::Active),
        sight(r@[2].1) == Sight::Nil,
        sight(r@[4].1) matches Sight::Names(list) && list[0].0 == "env"@ && sees_vars(
            list[0].1,
            sys_env,
        ),
{
    let all = sights(r@);
    assert(all.len() == r@.len());
    let act = crate::config::evaluate::build_act(ctx, false);
    assert(act->scene == all);
    assert(all[1] == (r@[1].0@, sight(r@[1].1)));
    assert(all[2] == (r@[2].0@, sight(r@[2].1)));
    assert(all[4] == (r@[4].0@, sight(r@[4].1)));
}

/// While general settings are read their scripts see no service, and the hook that they belong to
/// by its name, if there is one; the environment of the daemon is seen as that of the daemon.
pub proof fn law_scripts_of_general_settings(
    hook: Option<&str>,
    sys_env: NameMap<String>,
    ctx: EvalContext,
    r: Vec<(String, Slot)>,
)
    requires
        call_ensures(general_context, (hook, &sys_env), ctx),
        call_ensures(show, (&ctx,), r),
    ensures
        r@.len() == 5,
        sight(r@[1].1) == Sight::Nil,
        hook is None ==> sight(r@[2].1) == Sight::Nil,
        hook matches Some(h) ==> (sight(r@[2].1) matches Sight::Names(list) && list[0] == (
            "name"@,
            Sight::Text(h@),
        ) && list[1].0 == "raw_env"@ && sees_vars(list[1].1, sys_env)),
        sight(r@[4].1) matches Sight::Names(list) && list[0].0 == "env"@ && sees_vars(
            list[0].1,
            sys_env,
        ),
{
    let all = sights(r@);
    assert(all.len() == r@.len());
    let act = crate::config::evaluate::build_act(ctx, false);
    assert(act->scene == all);
    assert(all[1] == (r@[1].0@, sight(r@[1].1)));
    assert(all[2] == (r@[2].0@, sight(r@[2].1)));
    assert(all[4] == (r@[4].0@, sight(r@[4].1)));
}

/// The steps that put variables into a table put each of them in, in order.
proof fn lemma_var_steps(
    vars: Seq<(Seq<char>, Sight)>,
    n: nat,
    table: Place,
    active: Place,
    at: nat,
)
    requires
        n <= vars.len(),
        forall|i: int| 0 <= i < vars.len() ==> (#[trigger] vars[i]).1 is Text,
    ensures
        steps_of(vars, n, table, active, at).len() == n,
        forall|i: int|
            0 <= i < n ==> #[trigger] steps_of(vars, n, table, active, at)[i] == (Step::Put {
                table,
                name: vars[i].0,
                item: Item::Text(vars[i].1->Text_0),
            }),
    decreases n,
{
    if n > 0 {
        lemma_var_steps(vars, (n - 1) as nat, table, active, at);
        assert(vars[n - 1].1 is Text);
        let first = steps_of(vars, (n - 1) as nat, table, active, at);
        let last = steps(vars[n - 1].0, vars[n - 1].1, table, active, at + first.len());
        assert(last.len() == 1);
        assert forall|i: int| 0 <= i < n implies #[trigger] steps_of(vars, n, table, active, at)[i]
            == (Step::Put { table, name: vars[i].0, item: Item::Text(vars[i].1->Text_0) }) by {
            if i < n - 1 {
                assert(steps_of(vars, n, table, active, at)[i] == first[i]);
            }
        }
    }
}

/// When a context is shown, a table is made for the environment that is being computed, each
/// variable is put into it, and it is closed exactly if no more variables may be set. Scripts go on
/// from there: what they see is a table made after it, and what they set goes into the first. A
/// context that could not be shown leaves scripts with what they saw.
pub proof fn law_showing_a_context(
    before: Moment,
    after: Moment,
    lua: mlua::Lua,
    scene: Seq<(Seq<char>, Sight)>,
    vars: Seq<(Seq<char>, Sight)>,
    open: bool,
    r: Result<LuaValue, String>,
    i: int,
)
    requires
        after.performs(before, lua, Act::Build { scene, vars, open }, r),
        forall|k: int| 0 <= k < vars.len() ==> (#[trigger] vars[k]).1 is Text,
        0 <= i < vars.len(),
    ensures
        r is Err ==> after.seen == before.seen && after.active == before.active,
        r is Ok ==> {
            let at = before.past.deeds.len() as int;
            let deeds = after.past.deeds;
            let table = Place::Made(at as nat);
            &&& after.active == table
            &&& after.seen is Made
            &&& after.seen != after.active
            &&& deeds.len() > at + vars.len() + 1
            &&& deeds[at].step is Make
            &&& deeds[at + 1 + i].step == (Step::Put {
                table,
                name: vars[i].0,
                item: Item::Text(vars[i].1->Text_0),
            })
            &&& !open ==> deeds[at + 1 + vars.len()].step == (Step::Close { table })
            &&& open ==> deeds[at + 1 + vars.len()].step is Make
            &&& deeds.last().step matches Step::Link { table: t, .. } && t == after.seen
        },
{
    if r is Ok {
        let at = before.past.deeds.len();
        let deeds = after.past.deeds;
        let table = Place::Made(at);
        let plan = build_steps(scene, vars, open, at);
        let first = vars_steps(vars, open, at);
        let puts = steps_of(vars, vars.len(), table, table, at + 1);
        lemma_var_steps(vars, vars.len(), table, table, at + 1);
        let second = scene_steps(scene, table, at + first.len());
        assert(plan == first + second);
        assert(deeds == before.past.deeds + done(plan));
        assert(first[0] is Make);
        assert(first[1 + i] == puts[i]);
        assert(plan[0] == first[0]);
        assert(plan[1 + i] == first[1 + i]);
        assert(second[0] is Make);
        assert(second.last() is Link);
        assert(plan.last() == second.last());
        assert(deeds.last().step == plan.last());
        if open {
            assert(first.len() == 1 + vars.len());
            assert(plan[1 + vars.len() as int] == second[0]);
        } else {
            assert(first.len() == 2 + vars.len());
            assert(first[1 + vars.len() as int] == (Step::Close { table }));
            assert(plan[1 + vars.len() as int] == first[1 + vars.len() as int]);
        }
        assert(deeds[at as int].step == plan[0]);
        assert(deeds[at as int + 1 + i].step == plan[1 + i]);
        assert(deeds[at as int + 1 + vars.len()].step == plan[1 + vars.len() as int]);
    }
}

/// A variable that is set goes into the environment that is being computed, by its name and with
/// its value; once that is frozen it is closed. Neither changes what scripts see.
pub proof fn law_setting_and_freezing(
    before: Moment,
    set: Moment,
    frozen: Moment,
    lua: mlua::Lua,
    name: Seq<char>,
    value: Seq<char>,
    r: Result<LuaValue, String>,
    s: Result<LuaValue, String>,
)
    requires
        set.performs(before, lua, Act::Assign { name, value }, r),
        frozen.performs(set, lua, Act::Freeze, s),
    ensures
        set.seen == before.seen && set.active == before.active,
        frozen.seen == before.seen && frozen.active == before.active,
        set.past.deeds.last().step == (Step::Put {
            table: before.active,
            name,
            item: Item::Text(value),
        }),
        set.past.deeds.len() == before.past.deeds.len() + 1,
        s is Ok,
        frozen.past.deeds.last().step == (Step::Close { table: before.active }),
        frozen.past.deeds.len() == set.past.deeds.len() + 1,
{
    let step = Step::Put { table: before.active, name, item: Item::Text(value) };
    let close = Step::Close { table: set.active };
    if r is Ok {
        assert(set.past.deeds =~= before.past.deeds.push(done(seq![step])[0]));
    } else {
        let e = r->Err_0@;
        let k = choose|k: int|
            0 <= k < 1 && set.past.deeds == #[trigger] stopped(
                before.past.deeds,
                seq![step],
                k,
                e,
            );
        assert(k == 0);
        assert(seq![step].take(0) =~= Seq::<Step>::empty());
        assert(done(Seq::<Step>::empty()) =~= Seq::<crate::lua_eval::Deed>::empty());
        assert(before.past.deeds + Seq::<crate::lua_eval::Deed>::empty() =~= before.past.deeds);
    }
    assert(frozen.past.deeds =~= set.past.deeds.push(done(seq![close])[0]));
}

/// Code runs once, in what scripts see, and leaves the tables as they are; reading a file leaves
/// everything as it is.
pub proof fn law_running_and_reading(
    before: Moment,
    after: Moment,
    lua: mlua::Lua,
    form: Form,
    code: Seq<char>,
    chunk: Seq<char>,
    r: Result<LuaValue, String>,
    read: Moment,
    path: Seq<char>,
    s: Result<LuaValue, String>,
)
    requires
        after.performs(before, lua, Act::Run { form, code, chunk }, r),
        read.performs(before, lua, Act::Read { path }, s),
    ensures
        after.seen == before.seen && after.active == before.active,
        after.past.deeds.len() == before.past.deeds.len() + 1,
        after.past.deeds.last().step == (Step::Compute { code, chunk, table: before.seen }),
        read == before,
{
}

} // verus!
