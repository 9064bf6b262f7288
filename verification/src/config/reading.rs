//! Reading a configuration: the services, and the whole.
use vstd::prelude::*;
use vstd::string::*;
use crate::config::document::{
    find_text_key, first_text_key, prepare_service, retag, retagged, service_run, take_key, taken,
};
use crate::config::evaluate::{
    agree, extends, lemma_extends_agree, lemma_extends_twice, lua_error, reports, Fault, Run,
};
use crate::config::load::{process_lua_scripts, scripts_run};
use crate::config::resolve::Log;
use crate::config::service::{KeplerConfig, KeplerGlobalConfig, RawServiceConfig};
use crate::config::start::{definitions, fails_to_create};
use crate::errors::{DaemonError, ParseFailure};
use crate::lua_eval::{
    defined_all, definition_fails, fault_of, genuine, lemma_defined, seen_vars, start_fails,
    LuaEvaluator, Scripts, Sight,
};
use crate::name_map::NameMap;
use crate::text::{concat, concat3, concat5, contains, joined, occurs, opt_view};
use crate::value::{entry_trees, lemma_tree_parts, lookup, untagged, Tree, Yaml};
use crate::yaml::{failure_view, parse_tree, yaml_tree};

verus! {

/// Whether `decode` may give `d` for `y`.
pub open spec fn reads<T, F: Fn(&Yaml) -> Result<T, ParseFailure>>(
    decode: F,
    y: Yaml,
    d: Result<T, ParseFailure>,
) -> bool {
    call_ensures(decode, (&y,), d)
}

/// Whether a tree may be decoded as `d`.
pub open spec fn read_as<T, F: Fn(&Yaml) -> Result<T, ParseFailure>>(
    decode: F,
    t: Tree,
    d: Result<T, ParseFailure>,
) -> bool {
    exists|y: Yaml| #[trigger] reads(decode, y, d) && y@ == t
}

/// That the name of a service is no text.
pub open spec fn name_kind_fault(path: Seq<char>) -> Fault {
    Fault::Config("Config file '"@ + path + "': service names must be strings"@)
}

/// That the fields of a service are wrong.
pub open spec fn service_fault(path: Seq<char>, name: Seq<char>, failure: ParseFailure) -> Fault {
    Fault::Config(
        "Configuration errors in "@ + path + ":\n  - service '"@ + name + "' at "@
            + failure.field@ + ": "@ + failure.message@,
    )
}

/// Prepares the first `n` services.
pub open spec fn services_run(
    list: Seq<(Tree, Tree)>,
    n: nat,
    path: Seq<char>,
    vars: Seq<(Seq<char>, Sight)>,
    log: Log,
    from: int,
) -> Run<Seq<(Seq<char>, Tree)>>
    decreases n,
{
    if n == 0 || n > list.len() {
        Run { acts: seq![], end: Ok(seq![]) }
    } else {
        let front = services_run(list, (n - 1) as nat, path, vars, log, from);
        match front.end {
            Err(f) => front,
            Ok(done) => match untagged(list[n - 1].0) {
                Tree::Text(name) => {
                    let r = service_run(
                        list[n - 1].1,
                        name,
                        path,
                        vars,
                        log,
                        from + front.acts.len(),
                    );
                    Run {
                        acts: front.acts + r.acts,
                        end: match r.end {
                            Ok(t) => Ok(done.push((name, t))),
                            Err(f) => Err(f),
                        },
                    }
                },
                _ => Run { acts: front.acts, end: Err(name_kind_fault(path)) },
            },
        }
    }
}

/// The services by name; a later service replaces an earlier one of the same name.
pub open spec fn by_name(
    prepared: Seq<(Seq<char>, Tree)>,
    raws: Seq<RawServiceConfig>,
    n: nat,
) -> Map<Seq<char>, RawServiceConfig>
    decreases n,
{
    if n == 0 {
        Map::empty()
    } else {
        by_name(prepared, raws, (n - 1) as nat).insert(
            prepared[n - 1].0,
            raws[n - 1],
        )
    }
}

/// Whether each prepared service may be decoded as given.
pub open spec fn all_read<D: Fn(&Yaml) -> Result<RawServiceConfig, ParseFailure>>(
    decode: D,
    prepared: Seq<(Seq<char>, Tree)>,
    raws: Seq<RawServiceConfig>,
) -> bool {
    &&& raws.len() == prepared.len()
    &&& forall|i: int|
        0 <= i < raws.len() ==> read_as(decode, prepared[i].1, Ok(#[trigger] raws[i]))
}

/// Whether the services may be read as `services`.
pub open spec fn services_known<D: Fn(&Yaml) -> Result<RawServiceConfig, ParseFailure>>(
    list: Seq<(Tree, Tree)>,
    path: Seq<char>,
    vars: Seq<(Seq<char>, Sight)>,
    decode: D,
    before: Log,
    after: Log,
    services: NameMap<RawServiceConfig>,
) -> bool {
    exists|raws: Seq<RawServiceConfig>| #[trigger]
        services_read(list, path, vars, decode, before, after, raws, services)
}

/// Whether the services may be read as `services`, one by one as `raws`.
pub open spec fn services_read<D: Fn(&Yaml) -> Result<RawServiceConfig, ParseFailure>>(
    list: Seq<(Tree, Tree)>,
    path: Seq<char>,
    vars: Seq<(Seq<char>, Sight)>,
    decode: D,
    before: Log,
    after: Log,
    raws: Seq<RawServiceConfig>,
    services: NameMap<RawServiceConfig>,
) -> bool {
    let run = services_run(list, list.len(), path, vars, after, before.len() as int);
    &&& extends(before, after, run.acts)
    &&& run.end is Ok
    &&& all_read(decode, run.end->Ok_0, raws)
    &&& services@ == by_name(run.end->Ok_0, raws, raws.len())
}

/// Whether prepared services may all be decoded.
pub open spec fn can_be_read<D: Fn(&Yaml) -> Result<RawServiceConfig, ParseFailure>>(
    decode: D,
    prepared: Seq<(Seq<char>, Tree)>,
) -> bool {
    exists|raws: Seq<RawServiceConfig>| #[trigger] all_read(decode, prepared, raws)
}

/// Whether reading the services may fail with `e` at the service `k`: those before it were read,
/// and it could not be prepared, or not be decoded.
pub open spec fn services_fail<D: Fn(&Yaml) -> Result<RawServiceConfig, ParseFailure>>(
    list: Seq<(Tree, Tree)>,
    path: Seq<char>,
    vars: Seq<(Seq<char>, Sight)>,
    decode: D,
    before: Log,
    after: Log,
    k: int,
    e: DaemonError,
) -> bool {
    let first = services_run(list, k as nat, path, vars, after, before.len() as int);
    let run = services_run(list, (k + 1) as nat, path, vars, after, before.len() as int);
    &&& 0 <= k < list.len()
    &&& first.end is Ok
    &&& can_be_read(decode, first.end->Ok_0)
    &&& extends(before, after, run.acts)
    &&& match run.end {
        Err(f) => reports(e, path, f),
        Ok(prepared) => exists|failure: ParseFailure| #[trigger]
            read_as(decode, prepared[k].1, Err(failure)) && reports(
                e,
                path,
                service_fault(path, prepared[k].0, failure),
            ),
    }
}

proof fn lemma_services_run(
    list: Seq<(Tree, Tree)>,
    n: nat,
    path: Seq<char>,
    vars: Seq<(Seq<char>, Sight)>,
    a: Log,
    b: Log,
    from: int,
)
    requires
        0 <= from,
        agree(a, b, from + services_run(list, n, path, vars, a, from).acts.len()),
    ensures
        services_run(list, n, path, vars, a, from) == services_run(list, n, path, vars, b, from),
    decreases n,
{
    if n > 0 && n <= list.len() {
        lemma_services_run(list, (n - 1) as nat, path, vars, a, b, from);
        let front = services_run(list, (n - 1) as nat, path, vars, a, from);
        if front.end is Ok {
            if let Tree::Text(name) = untagged(list[n - 1].0) {
                crate::config::document::lemma_service_run(
                    list[n - 1].1,
                    name,
                    path,
                    vars,
                    a,
                    b,
                    from + front.acts.len(),
                );
            }
        }
    }
}

proof fn lemma_services_len(
    list: Seq<(Tree, Tree)>,
    n: nat,
    path: Seq<char>,
    vars: Seq<(Seq<char>, Sight)>,
    log: Log,
    from: int,
)
    requires
        n <= list.len(),
        services_run(list, n, path, vars, log, from).end is Ok,
    ensures
        services_run(list, n, path, vars, log, from).end->Ok_0.len() == n,
    decreases n,
{
    if n > 0 {
        lemma_services_len(list, (n - 1) as nat, path, vars, log, from);
    }
}

/// The services by name depend only on those that count.
proof fn lemma_by_name(
    a: Seq<(Seq<char>, Tree)>,
    b: Seq<(Seq<char>, Tree)>,
    x: Seq<RawServiceConfig>,
    y: Seq<RawServiceConfig>,
    n: nat,
)
    requires
        n <= a.len(),
        n <= b.len(),
        n <= x.len(),
        n <= y.len(),
        forall|i: int| 0 <= i < n ==> a[i] == b[i],
        forall|i: int| 0 <= i < n ==> x[i] == y[i],
    ensures
        by_name(a, x, n) == by_name(b, y, n),
    decreases n,
{
    if n > 0 {
        lemma_by_name(a, b, x, y, (n - 1) as nat);
        assert(a[n - 1] == b[n - 1] && x[n - 1] == y[n - 1]);
    }
}

/// One more service that is decoded as given.
proof fn lemma_all_read<D: Fn(&Yaml) -> Result<RawServiceConfig, ParseFailure>>(
    decode: D,
    prepared: Seq<(Seq<char>, Tree)>,
    raws: Seq<RawServiceConfig>,
    one: (Seq<char>, Tree),
    raw: RawServiceConfig,
)
    requires
        all_read(decode, prepared, raws),
        read_as(decode, one.1, Ok(raw)),
    ensures
        all_read(decode, prepared.push(one), raws.push(raw)),
{
    let next = prepared.push(one);
    let more = raws.push(raw);
    assert forall|j: int| 0 <= j < more.len() implies read_as(
        decode,
        next[j].1,
        Ok(#[trigger] more[j]),
    ) by {
        if j < raws.len() {
            assert(more[j] == raws[j]);
            assert(next[j] == prepared[j]);
        }
    }
}

/// Decodes a service.
fn decode_service<D: Fn(&Yaml) -> Result<RawServiceConfig, ParseFailure>>(
    value: &Yaml,
    config_path: &str,
    name: &str,
    decode: &D,
) -> (r: Result<RawServiceConfig, DaemonError>)
    requires
        forall|y: Yaml| #[trigger] call_requires(*decode, (&y,)),
    ensures
        match r {
            Ok(raw) => read_as(*decode, value@, Ok(raw)),
            Err(e) => exists|failure: ParseFailure| #[trigger]
                read_as(*decode, value@, Err(failure)) && reports(
                    e,
                    config_path@,
                    service_fault(config_path@, name@, failure),
                ),
        },
{
    match decode(value) {
        Ok(raw) => {
            assert(reads(*decode, *value, Ok(raw)));
            Ok(raw)
        },
        Err(failure) => {
            let head = concat5(
                "Configuration errors in ",
                config_path,
                ":\n  - service '",
                name,
                "' at ",
            );
            let text = concat5(
                head.as_str(),
                failure.field.as_str(),
                ": ",
                failure.message.as_str(),
                "",
            );
            proof {
                reveal_strlit("");
                assert(text@ =~= head@ + failure.field@ + ": "@ + failure.message@);
                assert(reads(*decode, *value, Err(failure)));
                assert(read_as(*decode, value@, Err(failure)));
            }
            Err(DaemonError::Config(text))
        },
    }
}

/// Reads the services: each is prepared and then decoded.
fn read_services<S: Scripts, D: Fn(&Yaml) -> Result<RawServiceConfig, ParseFailure>>(
    list: &Vec<(Yaml, Yaml)>,
    scripts: &mut S,
    config_path: &str,
    sys_env: &NameMap<String>,
    decode: &D,
) -> (r: Result<NameMap<RawServiceConfig>, DaemonError>)
    requires
        forall|y: Yaml| #[trigger] call_requires(*decode, (&y,)),
    ensures
        match r {
            Ok(services) => services_known(
                entry_trees(list@),
                config_path@,
                seen_vars(*sys_env),
                *decode,
                old(scripts).log(),
                final(scripts).log(),
                services,
            ),
            Err(e) => exists|k: int| #[trigger]
                services_fail(
                    entry_trees(list@),
                    config_path@,
                    seen_vars(*sys_env),
                    *decode,
                    old(scripts).log(),
                    final(scripts).log(),
                    k,
                    e,
                ),
        },
{
    let ghost all = entry_trees(list@);
    let ghost vars = seen_vars(*sys_env);
    let ghost path = config_path@;
    let ghost start = scripts.log();
    let ghost from = start.len() as int;
    let mut services: NameMap<RawServiceConfig> = NameMap::new();
    let ghost mut raws: Seq<RawServiceConfig> = seq![];
    let mut i: usize = 0;
    while i < list.len()
        invariant
            i <= list@.len(),
            all == entry_trees(list@),
            vars == seen_vars(*sys_env),
            path == config_path@,
            start == old(scripts).log(),
            from == start.len(),
            forall|y: Yaml| #[trigger] call_requires(*decode, (&y,)),
            raws.len() == i,
            ({
                let run = services_run(all, i as nat, path, vars, scripts.log(), from);
                &&& extends(start, scripts.log(), run.acts)
                &&& run.end is Ok
                &&& all_read(*decode, run.end->Ok_0, raws)
                &&& services@ == by_name(run.end->Ok_0, raws, i as nat)
            }),
        decreases list@.len() - i,
    {
        let ghost before = scripts.log();
        let ghost front = services_run(all, i as nat, path, vars, before, from);
        let ghost done = front.end->Ok_0;
        assert(all[i as int] == (list@[i as int].0@, list@[i as int].1@));
        let name = match list[i].0.as_str() {
            Some(name) => name,
            None => {
                let e = DaemonError::Config(
                    concat3("Config file '", config_path, "': service names must be strings"),
                );
                assert(services_fail(all, path, vars, *decode, start, scripts.log(), i as int, e));
                return Err(e);
            },
        };
        let prepared = prepare_service(&list[i].1, scripts, config_path, name, sys_env);
        let ghost now = scripts.log();
        proof {
            let run = service_run(all[i as int].1, name@, path, vars, now, before.len() as int);
            lemma_extends_agree(before, now, run.acts);
            lemma_services_run(all, i as nat, path, vars, before, now, from);
            lemma_extends_twice(start, before, now, front.acts, run.acts);
        }
        let value = match prepared {
            Ok(v) => v,
            Err(e) => {
                assert(services_fail(all, path, vars, *decode, start, scripts.log(), i as int, e));
                return Err(e);
            },
        };
        let ghost tree = value@;
        match decode_service(&value, config_path, name, decode) {
            Ok(raw) => {
                proof {
                    let next = done.push((name@, tree));
                    let more = raws.push(raw);
                    lemma_services_len(all, i as nat, path, vars, now, from);
                    lemma_by_name(done, next, raws, more, i as nat);
                    lemma_all_read(*decode, done, raws, (name@, tree), raw);
                    raws = more;
                }
                services.insert(name.to_owned(), raw);
            },
            Err(e) => {
                proof {
                    lemma_services_len(all, i as nat, path, vars, now, from);
                    let failure = choose|failure: ParseFailure| #[trigger]
                        read_as(*decode, tree, Err(failure)) && reports(
                            e,
                            path,
                            service_fault(path, name@, failure),
                        );
                    let run = services_run(all, (i + 1) as nat, path, vars, now, from);
                    assert(run.end->Ok_0[i as int] == (name@, tree));
                    assert(read_as(*decode, run.end->Ok_0[i as int].1, Err(failure)));
                    assert(services_fail(all, path, vars, *decode, start, now, i as int, e));
                }
                return Err(e);
            },
        }
        i += 1;
    }
    assert(services_read(
        entry_trees(list@),
        config_path@,
        seen_vars(*sys_env),
        *decode,
        old(scripts).log(),
        scripts.log(),
        raws,
        services,
    ));
    Ok(services)
}

/// That a configuration is no mapping.
pub open spec fn root_fault(path: Seq<char>) -> Fault {
    Fault::Config("Config file '"@ + path + "' must be a YAML mapping"@)
}

/// That the services are no mapping.
pub open spec fn services_kind_fault(path: Seq<char>) -> Fault {
    Fault::Config("Config file '"@ + path + "': 'services' must be a mapping"@)
}

/// That a field at the root is unknown.
pub open spec fn unknown_field_fault(path: Seq<char>, key: Seq<char>) -> Fault {
    Fault::Config(
        "Configuration errors in "@ + path + ":\n  - unknown field `"@ + key + "` at root level"@,
    )
}

/// Whether the services and the check of the whole may lead to `r`.
#[verifier::opaque]
pub open spec fn services_part<D: Fn(&Yaml) -> Result<RawServiceConfig, ParseFailure>>(
    list: Seq<(Tree, Tree)>,
    lua: Option<Seq<char>>,
    kepler: Option<KeplerGlobalConfig>,
    path: Seq<char>,
    vars: Seq<(Seq<char>, Sight)>,
    decode: D,
    before: Log,
    after: Log,
    r: Result<KeplerConfig, DaemonError>,
) -> bool {
    match r {
        Ok(config) => {
            &&& opt_view(config.lua) == lua
            &&& config.kepler == kepler
            &&& services_known(list, path, vars, decode, before, after, config.services)
            &&& config.faults().len() == 0
        },
        Err(e) => {
            ||| exists|k: int| #[trigger]
                services_fail(list, path, vars, decode, before, after, k, e)
            ||| exists|config: KeplerConfig| #[trigger]
                invalid(config, path, e) && opt_view(config.lua) == lua && config.kepler == kepler
                    && services_known(list, path, vars, decode, before, after, config.services)
        },
    }
}

/// Whether an error lists what is wrong with a configuration.
pub open spec fn invalid(config: KeplerConfig, path: Seq<char>, e: DaemonError) -> bool {
    &&& config.faults().len() > 0
    &&& e matches DaemonError::Config(m) && m@ == "Configuration errors in "@ + path + ":\n  - "@
        + joined(config.faults(), "\n  - "@)
}

/// The services of a configuration as they are written; without any, there are none.
pub open spec fn services_of(entries: Seq<(Tree, Tree)>) -> Tree {
    match lookup(entries, Tree::Text("services"@)) {
        Some(t) => t,
        None => Tree::Mapping(seq![]),
    }
}

/// Whether the entries at the root, without code and general settings, may lead to `r`.
pub open spec fn entries_part<D: Fn(&Yaml) -> Result<RawServiceConfig, ParseFailure>>(
    entries: Seq<(Tree, Tree)>,
    lua: Option<Seq<char>>,
    kepler: Option<KeplerGlobalConfig>,
    path: Seq<char>,
    vars: Seq<(Seq<char>, Sight)>,
    decode: D,
    before: Log,
    after: Log,
    r: Result<KeplerConfig, DaemonError>,
) -> bool {
    match untagged(services_of(entries)) {
        Tree::Mapping(list) => match first_text_key(taken(entries, "services"@)) {
            Some(key) => after == before && (r matches Err(e) && reports(
                e,
                path,
                unknown_field_fault(path, key),
            )),
            None => services_part(list, lua, kepler, path, vars, decode, before, after, r),
        },
        _ => after == before && (r matches Err(e) && reports(e, path, services_kind_fault(path))),
    }
}

/// Whether the entries at the root, without code, may lead to `r`.
pub open spec fn settings_part<
    K: Fn(&Yaml) -> Result<KeplerGlobalConfig, ParseFailure>,
    D: Fn(&Yaml) -> Result<RawServiceConfig, ParseFailure>,
>(
    entries: Seq<(Tree, Tree)>,
    lua: Option<Seq<char>>,
    path: Seq<char>,
    vars: Seq<(Seq<char>, Sight)>,
    decode_settings: K,
    decode: D,
    before: Log,
    after: Log,
    r: Result<KeplerConfig, DaemonError>,
) -> bool {
    let rest = taken(entries, "kepler"@);
    match lookup(entries, Tree::Text("kepler"@)) {
        None => entries_part(rest, lua, None, path, vars, decode, before, after, r),
        Some(t) => exists|k: Result<KeplerGlobalConfig, ParseFailure>| #[trigger]
            read_as(decode_settings, t, k) && match k {
                Ok(g) => entries_part(rest, lua, Some(g), path, vars, decode, before, after, r),
                Err(failure) => after == before && (r matches Err(DaemonError::ConfigParse {
                    path: p,
                    failure: f,
                }) && p@ == path && f == failure),
            },
    }
}

/// The code of a configuration, if it is a text.
pub open spec fn code_of(entries: Seq<(Tree, Tree)>) -> Option<Seq<char>> {
    match lookup(entries, Tree::Text("lua"@)) {
        Some(t) => match untagged(t) {
            Tree::Text(code) => Some(code),
            _ => None,
        },
        None => None,
    }
}

/// Computes the general settings, if the file mentions code at all.
pub open spec fn first_run(
    root: Tree,
    has_lua: bool,
    vars: Seq<(Seq<char>, Sight)>,
    log: Log,
    from: int,
) -> Run<Tree> {
    if has_lua {
        scripts_run(root, vars, log, from)
    } else {
        Run { acts: seq![], end: Ok(root) }
    }
}

/// Whether reading the tree of a configuration may lead to `r`.
pub open spec fn document_step<
    K: Fn(&Yaml) -> Result<KeplerGlobalConfig, ParseFailure>,
    D: Fn(&Yaml) -> Result<RawServiceConfig, ParseFailure>,
>(
    root: Tree,
    has_lua: bool,
    path: Seq<char>,
    vars: Seq<(Seq<char>, Sight)>,
    decode_settings: K,
    decode: D,
    before: Log,
    middle: Log,
    after: Log,
    r: Result<KeplerConfig, DaemonError>,
) -> bool {
    match untagged(root) {
        Tree::Mapping(entries) => {
            let tree = retagged(root, Tree::Mapping(taken(entries, "lua"@)));
            let run = first_run(tree, has_lua, vars, middle, before.len() as int);
            &&& extends(before, middle, run.acts)
            &&& match run.end {
                Err(f) => after == middle && (r matches Err(e) && reports(e, path, f)),
                Ok(t) => match untagged(t) {
                    Tree::Mapping(rest) => settings_part(
                        rest,
                        code_of(entries),
                        path,
                        vars,
                        decode_settings,
                        decode,
                        middle,
                        after,
                        r,
                    ),
                    _ => after == middle && (r matches Err(e) && reports(
                        e,
                        path,
                        root_fault(path),
                    )),
                },
            }
        },
        _ => after == before && (r matches Err(e) && reports(e, path, root_fault(path))),
    }
}

/// The error on a configuration that is no mapping.
fn root_error(path: &str) -> (r: DaemonError)
    ensures
        reports(r, path@, root_fault(path@)),
{
    DaemonError::Config(concat3("Config file '", path, "' must be a YAML mapping"))
}

/// Reads the services and checks the whole.
fn finish<S: Scripts, D: Fn(&Yaml) -> Result<RawServiceConfig, ParseFailure>>(
    list: &Vec<(Yaml, Yaml)>,
    lua: Option<String>,
    kepler: Option<KeplerGlobalConfig>,
    scripts: &mut S,
    path: &str,
    sys_env: &NameMap<String>,
    decode: &D,
) -> (r: Result<KeplerConfig, DaemonError>)
    requires
        forall|y: Yaml| #[trigger] call_requires(*decode, (&y,)),
    ensures
        services_part(
            entry_trees(list@),
            opt_view(lua),
            kepler,
            path@,
            seen_vars(*sys_env),
            *decode,
            old(scripts).log(),
            final(scripts).log(),
            r,
        ),
{
    reveal(services_part);
    let services = read_services(list, scripts, path, sys_env, decode)?;
    let config = KeplerConfig { lua, kepler, services };
    match config.validate(path) {
        Ok(_) => Ok(config),
        Err(e) => {
            assert(invalid(config, path@, e));
            Err(e)
        },
    }
}

/// Reads the services, after it is known that nothing else is left at the root.
fn read_entries<S: Scripts, D: Fn(&Yaml) -> Result<RawServiceConfig, ParseFailure>>(
    entries: Vec<(Yaml, Yaml)>,
    lua: Option<String>,
    kepler: Option<KeplerGlobalConfig>,
    scripts: &mut S,
    path: &str,
    sys_env: &NameMap<String>,
    decode: &D,
) -> (r: Result<KeplerConfig, DaemonError>)
    requires
        forall|y: Yaml| #[trigger] call_requires(*decode, (&y,)),
    ensures
        entries_part(
            entry_trees(entries@),
            opt_view(lua),
            kepler,
            path@,
            seen_vars(*sys_env),
            *decode,
            old(scripts).log(),
            final(scripts).log(),
            r,
        ),
{
    broadcast use lemma_tree_parts;

    let mut rest = entries;
    let written = match take_key(&mut rest, "services") {
        Some(v) => v,
        None => {
            let none: Vec<(Yaml, Yaml)> = Vec::new();
            assert(entry_trees(none@) =~= Seq::<(Tree, Tree)>::empty());
            Yaml::Mapping(none)
        },
    };
    match written.untag() {
        Yaml::Mapping(list) => {
            if let Some(key) = find_text_key(&rest) {
                return Err(
                    DaemonError::Config(
                        concat5(
                            "Configuration errors in ",
                            path,
                            ":\n  - unknown field `",
                            key.as_str(),
                            "` at root level",
                        ),
                    ),
                );
            }
            finish(list, lua, kepler, scripts, path, sys_env, decode)
        },
        _ => Err(
            DaemonError::Config(
                concat3("Config file '", path, "': 'services' must be a mapping"),
            ),
        ),
    }
}

/// Reads the general settings, and then the services.
fn read_settings<
    S: Scripts,
    K: Fn(&Yaml) -> Result<KeplerGlobalConfig, ParseFailure>,
    D: Fn(&Yaml) -> Result<RawServiceConfig, ParseFailure>,
>(
    entries: Vec<(Yaml, Yaml)>,
    lua: Option<String>,
    scripts: &mut S,
    path: &str,
    sys_env: &NameMap<String>,
    decode_settings: &K,
    decode: &D,
) -> (r: Result<KeplerConfig, DaemonError>)
    requires
        forall|y: Yaml| #[trigger] call_requires(*decode_settings, (&y,)),
        forall|y: Yaml| #[trigger] call_requires(*decode, (&y,)),
    ensures
        settings_part(
            entry_trees(entries@),
            opt_view(lua),
            path@,
            seen_vars(*sys_env),
            *decode_settings,
            *decode,
            old(scripts).log(),
            final(scripts).log(),
            r,
        ),
{
    let mut rest = entries;
    match take_key(&mut rest, "kepler") {
        None => read_entries(rest, lua, None, scripts, path, sys_env, decode),
        Some(value) => {
            let found = decode_settings(&value);
            let ghost k = found;
            proof {
                assert(reads(*decode_settings, value, k));
                assert(read_as(*decode_settings, value@, k));
            }
            match found {
                Ok(g) => read_entries(rest, lua, Some(g), scripts, path, sys_env, decode),
                Err(failure) => Err(DaemonError::ConfigParse { path: path.to_owned(), failure }),
            }
        },
    }
}

/// Reads the tree of a configuration. `has_lua` says whether the file mentions code with a tag;
/// the definitions of the configuration must be loaded already.
pub fn read_document<
    S: Scripts,
    K: Fn(&Yaml) -> Result<KeplerGlobalConfig, ParseFailure>,
    D: Fn(&Yaml) -> Result<RawServiceConfig, ParseFailure>,
>(
    root: &Yaml,
    has_lua: bool,
    scripts: &mut S,
    path: &str,
    sys_env: &NameMap<String>,
    decode_settings: &K,
    decode: &D,
) -> (r: Result<KeplerConfig, DaemonError>)
    requires
        forall|y: Yaml| #[trigger] call_requires(*decode_settings, (&y,)),
        forall|y: Yaml| #[trigger] call_requires(*decode, (&y,)),
    ensures
        exists|middle: Log| #[trigger]
            document_step(
                root@,
                has_lua,
                path@,
                seen_vars(*sys_env),
                *decode_settings,
                *decode,
                old(scripts).log(),
                middle,
                final(scripts).log(),
                r,
            ),
{
    broadcast use lemma_tree_parts;

    let ghost start = scripts.log();
    let ghost vars = seen_vars(*sys_env);
    let inner = root.untag().copy();
    match inner {
        Yaml::Mapping(list) => {
            let ghost all = entry_trees(list@);
            let mut entries = list;
            let lua = match take_key(&mut entries, "lua") {
                Some(v) => match v.as_str() {
                    Some(code) => Some(code.to_owned()),
                    None => None,
                },
                None => None,
            };
            assert(opt_view(lua) == code_of(all));
            let mut rest = retag(root, Yaml::Mapping(entries));
            let ghost tree = rest@;
            assert(tree == retagged(root@, Tree::Mapping(taken(all, "lua"@))));
            if has_lua {
                if let Err(e) = process_lua_scripts(&mut rest, scripts, path, sys_env) {
                    let r: Result<KeplerConfig, DaemonError> = Err(e);
                    assert(document_step(
                        root@,
                        has_lua,
                        path@,
                        vars,
                        *decode_settings,
                        *decode,
                        start,
                        scripts.log(),
                        scripts.log(),
                        r,
                    ));
                    return r;
                }
            }
            let ghost middle = scripts.log();
            let ghost after = rest@;
            assert(first_run(tree, has_lua, vars, middle, start.len() as int).end == Ok::<
                Tree,
                Fault,
            >(after));
            let body = rest.untag().copy();
            let r = match body {
                Yaml::Mapping(others) => read_settings(
                    others,
                    lua,
                    scripts,
                    path,
                    sys_env,
                    decode_settings,
                    decode,
                ),
                _ => Err(root_error(path)),
            };
            assert(document_step(
                root@,
                has_lua,
                path@,
                vars,
                *decode_settings,
                *decode,
                start,
                middle,
                scripts.log(),
                r,
            ));
            r
        },
        _ => {
            let r: Result<KeplerConfig, DaemonError> = Err(root_error(path));
            assert(document_step(
                root@,
                has_lua,
                path@,
                vars,
                *decode_settings,
                *decode,
                start,
                start,
                scripts.log(),
                r,
            ));
            r
        },
    }
}

/// Whether an error says that the definitions of the configuration could not be run.
pub open spec fn definitions_fail(e: DaemonError, path: Seq<char>, m: Seq<char>) -> bool {
    reports(e, path, Fault::Lua("Error in lua: block: "@ + m))
}

/// Whether reading a configuration of this tree may lead to `r`: an interpreter is made, runs the
/// definitions of the configuration, and is then asked what reading the tree asks. The answers
/// are those of this interpreter.
pub open spec fn tree_loads<
    K: Fn(&Yaml) -> Result<KeplerGlobalConfig, ParseFailure>,
    D: Fn(&Yaml) -> Result<RawServiceConfig, ParseFailure>,
>(
    root: Tree,
    has_lua: bool,
    path: Seq<char>,
    vars: Seq<(Seq<char>, Sight)>,
    decode_settings: K,
    decode: D,
    r: Result<KeplerConfig, DaemonError>,
) -> bool {
    match untagged(root) {
        Tree::Mapping(entries) => {
            ||| r matches Err(e) && exists|m: Seq<char>|
                start_fails(m) && #[trigger] fails_to_create(e, m)
            ||| code_of(entries) matches Some(code) && (r matches Err(e) && exists|m: Seq<char>|
                definition_fails(seq![], code, "lua"@, m) && #[trigger] definitions_fail(e, path, m))
            ||| exists|middle: Log, after: Log|
                genuine(after) && #[trigger] document_step(
                    root,
                    has_lua,
                    path,
                    vars,
                    decode_settings,
                    decode,
                    defined_all(definitions(code_of(entries))),
                    middle,
                    after,
                    r,
                )
        },
        _ => r matches Err(e) && reports(e, path, root_fault(path)),
    }
}

/// Whether reading a configuration of these contents may lead to `r`: what their tree leads to,
/// or why they have none.
pub open spec fn contents_load<
    K: Fn(&Yaml) -> Result<KeplerGlobalConfig, ParseFailure>,
    D: Fn(&Yaml) -> Result<RawServiceConfig, ParseFailure>,
>(
    contents: Seq<char>,
    path: Seq<char>,
    vars: Seq<(Seq<char>, Sight)>,
    decode_settings: K,
    decode: D,
    r: Result<KeplerConfig, DaemonError>,
) -> bool {
    match yaml_tree(contents) {
        Ok(root) => tree_loads(
            root,
            occurs(contents, "!lua"@),
            path,
            vars,
            decode_settings,
            decode,
            r,
        ),
        Err(why) => r matches Err(DaemonError::ConfigParse { path: p, failure }) && p@ == path
            && failure_view(failure) == why,
    }
}

impl KeplerConfig {
    /// Reads a configuration, given its tree, and whether its file mentions code with a tag: runs
    /// the definitions of the configuration, computes what cannot wait until the services start,
    /// decodes the general settings and the services, and checks the whole.
    pub fn load_tree<
        K: Fn(&Yaml) -> Result<KeplerGlobalConfig, ParseFailure>,
        D: Fn(&Yaml) -> Result<RawServiceConfig, ParseFailure>,
    >(
        path: &str,
        root: &Yaml,
        has_lua: bool,
        sys_env: &NameMap<String>,
        decode_settings: &K,
        decode: &D,
    ) -> (r: Result<Self, DaemonError>)
        requires
            forall|y: Yaml| #[trigger] call_requires(*decode_settings, (&y,)),
            forall|y: Yaml| #[trigger] call_requires(*decode, (&y,)),
        ensures
            tree_loads(root@, has_lua, path@, seen_vars(*sys_env), *decode_settings, *decode, r),
    {
        broadcast use lemma_tree_parts;

        let code = match root.untag() {
            Yaml::Mapping(entries) => match crate::value::find_key(entries, "lua") {
                Some(i) => {
                    proof {
                        crate::value::lemma_key_index(
                            entry_trees(entries@),
                            Tree::Text("lua"@),
                        );
                    }
                    match entries[i].1.as_str() {
                        Some(code) => Some(code),
                        None => None,
                    }
                },
                None => None,
            },
            _ => {
                return Err(root_error(path));
            },
        };
        let mut evaluator = match LuaEvaluator::new() {
            Ok(e) => e,
            Err(m) => {
                let e = DaemonError::Internal(
                    concat("Failed to create Lua evaluator: ", m.as_str()),
                );
                assert(fails_to_create(e, m@));
                return Err(e);
            },
        };
        let ghost fresh = evaluator;
        if let Some(text) = code {
            let done = evaluator.load_inline(text);
            proof {
                lemma_defined(fresh, evaluator, seq![], text@, "lua"@, fault_of(done));
            }
            if let Err(m) = done {
                let e = lua_error(path, concat("Error in lua: block: ", m.as_str()));
                assert(definitions_fail(e, path@, m@));
                return Err(e);
            }
            assert(seq![].push((text@, "lua"@)) =~= definitions(Some(text@)));
        }
        assert(evaluator.log() == defined_all(
            definitions(code_of(untagged(root@)->Mapping_0)),
        ));
        let r = read_document(
            root,
            has_lua,
            &mut evaluator,
            path,
            sys_env,
            decode_settings,
            decode,
        );
        evaluator.vouch();
        r
    }

    /// Reads a configuration, given the contents of its file.
    pub fn load<
        K: Fn(&Yaml) -> Result<KeplerGlobalConfig, ParseFailure>,
        D: Fn(&Yaml) -> Result<RawServiceConfig, ParseFailure>,
    >(
        path: &str,
        contents: &str,
        sys_env: &NameMap<String>,
        decode_settings: &K,
        decode: &D,
    ) -> (r: Result<Self, DaemonError>)
        requires
            forall|y: Yaml| #[trigger] call_requires(*decode_settings, (&y,)),
            forall|y: Yaml| #[trigger] call_requires(*decode, (&y,)),
        ensures
            contents_load(contents@, path@, seen_vars(*sys_env), *decode_settings, *decode, r),
    {
        match parse_tree(contents) {
            Ok(root) => {
                let has_lua = contains(contents, "!lua");
                KeplerConfig::load_tree(path, &root, has_lua, sys_env, decode_settings, decode)
            },
            Err(failure) => Err(DaemonError::ConfigParse { path: path.to_owned(), failure }),
        }
    }

    /// Reads a configuration without an environment.
    pub fn load_without_sys_env<
        K: Fn(&Yaml) -> Result<KeplerGlobalConfig, ParseFailure>,
        D: Fn(&Yaml) -> Result<RawServiceConfig, ParseFailure>,
    >(path: &str, contents: &str, decode_settings: &K, decode: &D) -> (r: Result<Self, DaemonError>)
        requires
            forall|y: Yaml| #[trigger] call_requires(*decode_settings, (&y,)),
            forall|y: Yaml| #[trigger] call_requires(*decode, (&y,)),
        ensures
            contents_load(contents@, path@, seq![], *decode_settings, *decode, r),
    {
        let none: NameMap<String> = NameMap::new();
        assert(seen_vars(none) =~= Seq::<(Seq<char>, Sight)>::empty());
        KeplerConfig::load(path, contents, &none, decode_settings, decode)
    }
}

} // verus!
