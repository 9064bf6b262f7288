//! Computing the environment of a process.
use vstd::prelude::*;
use vstd::string::*;
use crate::config::config_value::ConfigValue;
use crate::config::environment::{
    environment_of, lemma_text_fields_cloned, text_field, text_fields, EnvironmentEntries,
    TextField,
};
use crate::config::evaluate::{
    agree, expr_run, extends, lemma_expr_run, lemma_extends_agree, lemma_extends_twice, lua_error,
    reports, Fault, Run,
};
use crate::config::read::{read_text, text_in};
use crate::config::resolve::{item_path, path_of_item, Log};
use crate::env::{env_result, load_env_file, read_from, texts};
use crate::errors::{error_text, DaemonError};
use crate::lua_eval::{Act, EvalContext, Order, Reply, Scripts};
use crate::name_map::NameMap;
use crate::paths::{join, seen_from};
use crate::text::{concat, concat3, concat5, split_once, split_once_at, views};

verus! {

/// Computes one entry of an environment.
pub open spec fn entry_run(entry: TextField, place: Seq<char>, log: Log, from: int) -> Run<
    Seq<char>,
> {
    match entry {
        TextField::Known(s) => Run { acts: seq![], end: Ok(s) },
        TextField::Computed(c) => {
            let r = expr_run(c, place, log, from);
            Run {
                acts: r.acts,
                end: match r.end {
                    Ok(t) => match text_in(t) {
                        Ok(s) => Ok(s),
                        Err(m) => Err(Fault::Config(place + ": "@ + m)),
                    },
                    Err(f) => Err(f),
                },
            }
        },
    }
}

/// What comes of computing an environment: the variables as far as they are set, and the texts
/// of its entries.
#[verifier::ext_equal]
pub struct EnvRun {
    pub acts: Seq<Act>,
    pub vars: Map<Seq<char>, Seq<char>>,
    pub end: Result<Seq<Seq<char>>, Fault>,
}

/// That a variable could not be shown to scripts.
pub open spec fn update_fault(m: Seq<char>) -> Fault {
    Fault::Lua("Error updating Lua env table: "@ + m)
}

/// Computes the first `n` entries of an environment, one after the other. Each entry
/// `NAME=value` sets a variable that the code of later entries can see.
pub open spec fn env_run(
    items: Seq<TextField>,
    n: nat,
    field: Seq<char>,
    vars: Map<Seq<char>, Seq<char>>,
    log: Log,
    from: int,
) -> EnvRun
    decreases n,
{
    if n == 0 || n > items.len() {
        EnvRun { acts: seq![], vars, end: Ok(seq![]) }
    } else {
        let front = env_run(items, (n - 1) as nat, field, vars, log, from);
        match front.end {
            Err(f) => front,
            Ok(done) => {
                let at = from + front.acts.len();
                let r = entry_run(items[n - 1], item_path(field, n - 1), log, at);
                match r.end {
                    Err(f) => EnvRun { acts: front.acts + r.acts, vars: front.vars, end: Err(f) },
                    Ok(s) => match split_once_at(s, '=') {
                        None => EnvRun {
                            acts: front.acts + r.acts,
                            vars: front.vars,
                            end: Ok(done.push(s)),
                        },
                        Some((name, value)) => EnvRun {
                            acts: front.acts + r.acts + seq![Act::Assign { name, value }],
                            vars: front.vars.insert(name, value),
                            end: match log[at + r.acts.len()].1 {
                                Reply::Value(_) => Ok(done.push(s)),
                                Reply::Fault(m) => Err(update_fault(m)),
                            },
                        },
                    },
                }
            },
        }
    }
}

/// Computing an entry reads only the answers it asks for.
proof fn lemma_entry_run(entry: TextField, place: Seq<char>, a: Log, b: Log, from: int)
    requires
        0 <= from,
        agree(a, b, from + entry_run(entry, place, a, from).acts.len()),
    ensures
        entry_run(entry, place, a, from) == entry_run(entry, place, b, from),
{
    if let TextField::Computed(c) = entry {
        lemma_expr_run(c, place, a, b, from);
    }
}

/// Computing an environment reads only the answers it asks for.
pub proof fn lemma_env_run(
    items: Seq<TextField>,
    n: nat,
    field: Seq<char>,
    vars: Map<Seq<char>, Seq<char>>,
    a: Log,
    b: Log,
    from: int,
)
    requires
        0 <= from,
        agree(a, b, from + env_run(items, n, field, vars, a, from).acts.len()),
    ensures
        env_run(items, n, field, vars, a, from) == env_run(items, n, field, vars, b, from),
    decreases n,
{
    if n > 0 && n <= items.len() {
        let m = (n - 1) as nat;
        lemma_env_run(items, m, field, vars, a, b, from);
        let front = env_run(items, m, field, vars, a, from);
        if front.end is Ok {
            let at = from + front.acts.len();
            let place = item_path(field, n - 1);
            lemma_entry_run(items[n - 1], place, a, b, at);
            let r = entry_run(items[n - 1], place, a, at);
            if let Ok(s) = r.end {
                if split_once_at(s, '=') is Some {
                    assert(a[at + r.acts.len()] == b[at + r.acts.len()]);
                }
            }
        }
    }
}

proof fn lemma_env_stop(
    items: Seq<TextField>,
    n: nat,
    field: Seq<char>,
    vars: Map<Seq<char>, Seq<char>>,
    log: Log,
    from: int,
)
    requires
        n <= items.len(),
        env_run(items, n, field, vars, log, from).end is Err,
    ensures
        env_run(items, items.len(), field, vars, log, from) == env_run(
            items,
            n,
            field,
            vars,
            log,
            from,
        ),
    decreases items.len() - n,
{
    if n < items.len() {
        lemma_env_stop(items, n + 1, field, vars, log, from);
    }
}

/// Computes one entry of an environment.
fn resolve_entry<S: Scripts>(
    entry: &ConfigValue<String>,
    scripts: &mut S,
    config_path: &str,
    place: &str,
) -> (r: Result<String, DaemonError>)
    ensures
        ({
            let run = entry_run(
                text_field(*entry),
                place@,
                final(scripts).log(),
                old(scripts).log().len() as int,
            );
            &&& extends(old(scripts).log(), final(scripts).log(), run.acts)
            &&& match r {
                Ok(s) => run.end == Ok::<Seq<char>, Fault>(s@),
                Err(e) => run.end matches Err(f) && reports(e, config_path@, f),
            }
        }),
{
    match entry {
        ConfigValue::Static(s) => Ok(s.clone()),
        ConfigValue::Dynamic(expr) => {
            let y = expr.evaluate(scripts, config_path, place)?;
            match read_text(&y) {
                Ok(s) => Ok(s),
                Err(m) => Err(DaemonError::Config(concat3(place, ": ", m.as_str()))),
            }
        },
    }
}

/// Whether an environment is what a run leads to.
pub open spec fn env_ends(
    r: Result<Vec<String>, DaemonError>,
    path: Seq<char>,
    before: EvalContext,
    after: EvalContext,
    run: EnvRun,
) -> bool {
    &&& after == before.with_active(before.active_file(), after.active())
    &&& texts(after.active()@) == run.vars
    &&& match r {
        Ok(list) => run.end == Ok::<Seq<Seq<char>>, Fault>(views(list@)),
        Err(e) => run.end matches Err(f) && reports(e, path, f),
    }
}

/// Computes the entries of an environment, one after the other, and sets the variables of the
/// context as they become known.
pub fn resolve_entries<S: Scripts>(
    entries: &Vec<ConfigValue<String>>,
    scripts: &mut S,
    ctx: &mut EvalContext,
    config_path: &str,
    field: &str,
) -> (r: Result<Vec<String>, DaemonError>)
    ensures
        ({
            let run = env_run(
                text_fields(entries@),
                entries@.len(),
                field@,
                texts(old(ctx).active()@),
                final(scripts).log(),
                old(scripts).log().len() as int,
            );
            &&& extends(old(scripts).log(), final(scripts).log(), run.acts)
            &&& env_ends(r, config_path@, *old(ctx), *final(ctx), run)
        }),
{
    let ghost fields = text_fields(entries@);
    let ghost start = scripts.log();
    let ghost from = start.len() as int;
    let ghost vars = texts(ctx.active()@);
    let mut out: Vec<String> = Vec::new();
    let mut i: usize = 0;
    assert(views(out@) == Seq::<Seq<char>>::empty());
    while i < entries.len()
        invariant
            i <= entries@.len(),
            fields == text_fields(entries@),
            start == old(scripts).log(),
            from == start.len(),
            vars == texts(old(ctx).active()@),
            *ctx == old(ctx).with_active(old(ctx).active_file(), ctx.active()),
            ({
                let run = env_run(fields, i as nat, field@, vars, scripts.log(), from);
                &&& extends(start, scripts.log(), run.acts)
                &&& texts(ctx.active()@) == run.vars
                &&& run.end == Ok::<Seq<Seq<char>>, Fault>(views(out@))
            }),
        decreases entries@.len() - i,
    {
        let ghost before = scripts.log();
        let ghost done = views(out@);
        let ghost front = env_run(fields, i as nat, field@, vars, before, from);
        assert(fields[i as int] == text_field(entries@[i as int]));
        let place = path_of_item(field, i);
        let r = resolve_entry(&entries[i], scripts, config_path, place.as_str());
        let ghost middle = scripts.log();
        let ghost one = entry_run(fields[i as int], place@, middle, before.len() as int);
        proof {
            lemma_extends_agree(before, middle, one.acts);
            lemma_env_run(fields, i as nat, field@, vars, before, middle, from);
            lemma_extends_twice(start, before, middle, front.acts, one.acts);
        }
        let text = match r {
            Ok(s) => s,
            Err(e) => {
                proof {
                    lemma_env_stop(fields, (i + 1) as nat, field@, vars, middle, from);
                }
                return Err(e);
            },
        };
        if let Some((name, value)) = split_once(text.as_str(), '=') {
            let ghost act = seq![Act::Assign { name: name@, value: value@ }];
            let done_setting = scripts.perform(
                Order::Assign { name: name.as_str(), value: value.as_str() },
            );
            let ghost k = name@;
            let ghost v = value@;
            let ghost was = ctx.active()@;
            ctx.active_env_mut().insert(name, value);
            proof {
                let now = scripts.log();
                assert(texts(ctx.active()@) =~= texts(was).insert(k, v));
                assert(extends(middle, now, act));
                lemma_extends_agree(middle, now, act);
                lemma_env_run(fields, i as nat, field@, vars, middle, now, from);
                lemma_entry_run(fields[i as int], place@, middle, now, before.len() as int);
                lemma_extends_twice(start, middle, now, front.acts + one.acts, act);
            }
            if let Err(m) = done_setting {
                proof {
                    lemma_env_stop(fields, (i + 1) as nat, field@, vars, scripts.log(), from);
                }
                return Err(
                    lua_error(config_path, concat("Error updating Lua env table: ", m.as_str())),
                );
            }
        }
        out.push(text);
        assert(views(out@) == done.push(text@));
        i += 1;
    }
    Ok(out)
}

/// The text of an environment that is none.
pub open spec fn not_entries(field: Seq<char>, m: Seq<char>) -> Fault {
    Fault::Config(field + ": "@ + m)
}

/// Whether computing the list of entries may take the record from `before` to `after` and give
/// `r`. `label` is what the message on a value that is no environment starts with.
pub open spec fn entries_step(
    c: ConfigValue<EnvironmentEntries>,
    field: Seq<char>,
    label: Seq<char>,
    path: Seq<char>,
    before: Log,
    after: Log,
    r: Result<Vec<ConfigValue<String>>, DaemonError>,
) -> bool {
    match c {
        ConfigValue::Static(e) => after == before && (r matches Ok(list) && text_fields(list@)
            == text_fields(e.0@)),
        ConfigValue::Dynamic(expr) => {
            let run = expr_run(expr@, field, after, before.len() as int);
            &&& extends(before, after, run.acts)
            &&& match run.end {
                Err(f) => r matches Err(e) && reports(e, path, f),
                Ok(t) => match r {
                    Ok(list) => environment_of(t) == Ok::<Seq<TextField>, Seq<char>>(
                        text_fields(list@),
                    ),
                    Err(e) => environment_of(t) matches Err(m) && reports(
                        e,
                        path,
                        not_entries(label, m),
                    ),
                },
            }
        },
    }
}

/// The entries of an environment.
fn resolve_list<S: Scripts>(
    c: &ConfigValue<EnvironmentEntries>,
    scripts: &mut S,
    config_path: &str,
    field: &str,
    label: &str,
) -> (r: Result<Vec<ConfigValue<String>>, DaemonError>)
    ensures
        entries_step(
            *c,
            field@,
            label@,
            config_path@,
            old(scripts).log(),
            final(scripts).log(),
            r,
        ),
{
    match c {
        ConfigValue::Static(e) => {
            let list = e.0.clone();
            proof {
                lemma_text_fields_cloned(e.0, list);
            }
            Ok(list)
        },
        ConfigValue::Dynamic(expr) => {
            let y = expr.evaluate(scripts, config_path, field)?;
            match EnvironmentEntries::from_value(&y) {
                Ok(e) => Ok(e.0),
                Err(m) => {
                    let err = DaemonError::Config(concat3(label, ": ", m.as_str()));
                    assert(reports(err, config_path@, not_entries(label@, m@)));
                    Err(err)
                },
            }
        },
    }
}

/// Whether computing an environment may take the record from `before` to `after` and the context
/// from `ctx0` to `ctx1`, and give `r`: first the list of entries is computed, then the entries
/// one by one.
pub open spec fn environment_step(
    c: ConfigValue<EnvironmentEntries>,
    field: Seq<char>,
    label: Seq<char>,
    path: Seq<char>,
    ctx0: EvalContext,
    ctx1: EvalContext,
    before: Log,
    after: Log,
    r: Result<Vec<String>, DaemonError>,
) -> bool {
    exists|middle: Log, list: Result<Vec<ConfigValue<String>>, DaemonError>| #[trigger]
        entries_step(c, field, label, path, before, middle, list) && match list {
            Err(e) => ctx1 == ctx0 && after == middle && r == Err::<Vec<String>, DaemonError>(e),
            Ok(items) => {
                let run = env_run(
                    text_fields(items@),
                    items@.len(),
                    field,
                    texts(ctx0.active()@),
                    after,
                    middle.len() as int,
                );
                &&& extends(middle, after, run.acts)
                &&& env_ends(r, path, ctx0, ctx1, run)
            },
        }
}

/// Computes an environment and sets the variables of the context as they become known. The
/// message on a value that is no environment starts with `label`.
pub fn resolve_environment<S: Scripts>(
    c: &ConfigValue<EnvironmentEntries>,
    scripts: &mut S,
    ctx: &mut EvalContext,
    config_path: &str,
    field: &str,
    label: &str,
) -> (r: Result<Vec<String>, DaemonError>)
    ensures
        environment_step(
            *c,
            field@,
            label@,
            config_path@,
            *old(ctx),
            *final(ctx),
            old(scripts).log(),
            final(scripts).log(),
            r,
        ),
{
    let ghost before = scripts.log();
    let list = resolve_list(c, scripts, config_path, field, label);
    let ghost middle = scripts.log();
    let ghost found = list;
    assert(entries_step(*c, field@, label@, config_path@, before, middle, found));
    match list {
        Ok(items) => resolve_entries(&items, scripts, ctx, config_path, field),
        Err(e) => Err(e),
    }
}

/// A context after the variables of an environment file: they are known as such, and set.
pub open spec fn with_file_vars(
    before: EvalContext,
    after: EvalContext,
    vars: Map<Seq<char>, Seq<char>>,
) -> bool {
    &&& after == before.with_active(after.active_file(), after.active())
    &&& texts(after.active_file()@) == texts(before.active_file()@).union_prefer_right(vars)
    &&& texts(after.active()@) == texts(before.active()@).union_prefer_right(vars)
}

/// Sets the variables of an environment file in the context.
pub fn add_file_vars(ctx: &mut EvalContext, vars: &NameMap<String>)
    ensures
        with_file_vars(*old(ctx), *final(ctx), texts(vars@)),
{
    let ghost file0 = texts(ctx.active_file()@);
    let ghost env0 = texts(ctx.active()@);
    let n: usize = vars.len();
    let mut i: usize = 0;
    let ghost mut seen: Map<Seq<char>, Seq<char>> = Map::empty();
    assert(file0.union_prefer_right(seen) =~= file0);
    assert(env0.union_prefer_right(seen) =~= env0);
    while i < n
        invariant
            i <= n,
            n == vars.keys().len(),
            vars.well_formed(),
            *ctx == old(ctx).with_active(ctx.active_file(), ctx.active()),
            file0 == texts(old(ctx).active_file()@),
            env0 == texts(old(ctx).active()@),
            forall|k: Seq<char>|
                seen.contains_key(k) <==> exists|j: int| 0 <= j < i && vars.keys()[j] == k,
            forall|j: int| 0 <= j < i ==> seen[#[trigger] vars.keys()[j]] == vars.values()[j]@,
            texts(ctx.active_file()@) == file0.union_prefer_right(seen),
            texts(ctx.active()@) == env0.union_prefer_right(seen),
        decreases n - i,
    {
        let ghost file1 = ctx.active_file()@;
        let ghost env1 = ctx.active()@;
        let ghost k = vars.keys()[i as int];
        let ghost v = vars.values()[i as int]@;
        let ghost seen0 = seen;
        ctx.active_env_file_mut().insert(vars.key_at(i).clone(), vars.value_at(i).clone());
        ctx.active_env_mut().insert(vars.key_at(i).clone(), vars.value_at(i).clone());
        proof {
            seen = seen.insert(k, v);
            assert(texts(ctx.active_file()@) =~= texts(file1).insert(k, v));
            assert(texts(ctx.active()@) =~= texts(env1).insert(k, v));
            assert(texts(ctx.active_file()@) =~= file0.union_prefer_right(seen));
            assert(texts(ctx.active()@) =~= env0.union_prefer_right(seen));
            assert forall|x: Seq<char>|
                seen.contains_key(x) <==> exists|j: int|
                    0 <= j < i + 1 && vars.keys()[j] == x by {
                if x == k {
                    assert(vars.keys()[i as int] == x);
                }
                if seen0.contains_key(x) {
                    let j = choose|j: int| 0 <= j < i && vars.keys()[j] == x;
                    assert(0 <= j < i + 1 && vars.keys()[j] == x);
                }
            }
        }
        i += 1;
    }
    proof {
        assert(seen =~= texts(vars@)) by {
            assert forall|x: Seq<char>| seen.contains_key(x) implies texts(vars@).contains_key(x)
                && seen[x] == texts(vars@)[x] by {
                let j = choose|j: int| 0 <= j < i && vars.keys()[j] == x;
                assert(vars.keys().index_of(x) == j);
            }
        }
    }
}

/// The path of an environment file: seen from the directory of the configuration.
pub fn env_file_path(config_dir: &str, env_file: &str) -> (r: String)
    ensures
        r@ == seen_from(config_dir@, env_file@),
{
    join(config_dir, env_file)
}

/// The message on an environment file that cannot be read.
pub open spec fn env_file_fault(file: Seq<char>, owner: Seq<char>, m: Seq<char>) -> Fault {
    Fault::Config("Failed to load env_file '"@ + file + "' for "@ + owner + ": "@ + m)
}

/// Sets the variables of an environment file in the context, given the contents of the file. A
/// file that is not there sets nothing. `owner` is what the message on a file that cannot be read
/// names as its user.
pub fn add_env_file(
    ctx: &mut EvalContext,
    file: &str,
    contents: Option<&Vec<u8>>,
    owner: &str,
) -> (r: Result<(), DaemonError>)
    ensures
        match contents {
            None => r is Ok && *final(ctx) == *old(ctx),
            Some(data) => exists|items: Seq<Result<(String, String), String>>, found: Result<NameMap<String>, DaemonError>|
                #[trigger] env_result(file@, items, found) && read_from(items, data@) && match found {
                    Ok(vars) => r is Ok && with_file_vars(*old(ctx), *final(ctx), texts(vars@)),
                    Err(e) => *final(ctx) == *old(ctx) && (r matches Err(err) && reports(
                        err,
                        seq![],
                        env_file_fault(file@, owner@, error_text(e)),
                    )),
                },
        },
{
    match contents {
        None => Ok(()),
        Some(data) => {
            let found = load_env_file(file, Some(data));
            match found {
                Ok(vars) => {
                    add_file_vars(ctx, &vars);
                    Ok(())
                },
                Err(e) => {
                    let head = concat5("Failed to load env_file '", file, "' for ", owner, ": ");
                    Err(DaemonError::Config(concat(head.as_str(), e.message().as_str())))
                },
            }
        },
    }
}

} // verus!
