//! What holds of configurations and services that are read.
use vstd::prelude::*;
use vstd::string::*;
use crate::config::document::{
    check_config_size, depends_run, file_field_run, file_path_run, first_text_key, prepare_service,
    service_fields_run, service_run, taken,
};
use crate::config::load::{
    general_act, hooks_run, log_settings_run, process_lua_scripts, settings_run, whole_run,
};
use crate::config::reading::{
    by_name, document_step, read_document, services_fail, services_part, services_read,
    services_run,
};
use crate::config::resolve::Log;
use crate::config::service::{KeplerConfig, KeplerGlobalConfig, RawServiceConfig};
use crate::errors::{DaemonError, ParseFailure};
use crate::lua_eval::{seen_vars, Act, Form, Reply, Scripts, Sight};
use crate::name_map::NameMap;
use crate::text::occurs;
use crate::yaml::yaml_tree;
use crate::value::{
    key_index, lemma_key_index, lemma_key_index_unique, lookup, put, untagged, Tree, Yaml,
};

verus! {

/// A configuration file may have up to ten mebibytes.
pub proof fn law_ten_mebibytes_at_most(path: &str, size: u64, r: Result<(), DaemonError>)
    requires
        call_ensures(check_config_size, (path, size), r),
    ensures
        r is Ok <==> size <= 10 * 1024 * 1024,
{
}

/// A key that is set has its value, and every other key has the value of before.
pub proof fn law_setting_a_key(
    entries: Seq<(Tree, Tree)>,
    key: Tree,
    value: Tree,
    other: Tree,
)
    ensures
        lookup(put(entries, key, value), key) == Some(value),
        other != key ==> lookup(put(entries, key, value), other) == lookup(entries, other),
        lookup(entries, key) is Some ==> put(entries, key, value).len() == entries.len(),
{
    let after = put(entries, key, value);
    let i = key_index(entries, key);
    lemma_key_index(entries, key);
    lemma_key_index(entries, other);
    if i < entries.len() {
        assert forall|j: int| 0 <= j < i implies (#[trigger] after[j]).0 != key by {
            assert(after[j] == entries[j]);
        }
        lemma_key_index_unique(after, key, i);
    } else {
        assert forall|j: int| 0 <= j < entries.len() implies (#[trigger] after[j]).0 != key by {
            assert(after[j] == entries[j]);
        }
        lemma_key_index_unique(after, key, entries.len() as int);
    }
    if other != key {
        let k = key_index(entries, other);
        if k < entries.len() {
            assert forall|j: int| 0 <= j < k implies (#[trigger] after[j]).0 != other by {
                if j != i {
                    assert(after[j] == entries[j]);
                }
            }
            lemma_key_index_unique(after, other, k);
        } else {
            assert forall|j: int| 0 <= j < after.len() implies (#[trigger] after[j]).0 != other by {
                if j < entries.len() && j != i {
                    assert(after[j] == entries[j]);
                }
            }
            lemma_key_index_unique(after, other, after.len() as int);
        }
    }
}

/// Before a service starts only the path of its environment file and what is asked of its
/// dependencies are computed: every other field is kept as it is written. What is no mapping is
/// kept, and nothing is asked for it.
pub proof fn law_only_file_and_dependencies_are_computed_early<S: Scripts>(
    value: Yaml,
    scripts: &mut S,
    path: &str,
    name: &str,
    sys_env: NameMap<String>,
    r: Result<Yaml, DaemonError>,
    key: Seq<char>,
)
    requires
        call_ensures(prepare_service::<S>, (&value, scripts, path, name, &sys_env), r),
    ensures
        !(untagged(value@) is Mapping) ==> (r matches Ok(v) && v@ == value@)
            && final(scripts).log() == old(scripts).log(),
        value@ matches Tree::Mapping(fields) ==> (r matches Ok(v) ==> (v@ matches Tree::Mapping(done)
            && (key != "env_file"@ && key != "depends_on"@ ==> lookup(done, Tree::Text(key))
            == lookup(fields, Tree::Text(key))) && (lookup(done, Tree::Text(key)) is Some
            <==> lookup(fields, Tree::Text(key)) is Some))),
{
    reveal(service_run);
    let log = final(scripts).log();
    let from = old(scripts).log().len() as int;
    let vars = seen_vars(sys_env);
    if !(untagged(value@) is Mapping) {
        assert(log =~= old(scripts).log());
    }
    if let Tree::Mapping(fields) = value@ {
        let first = file_field_run(fields, vars, log, from);
        if let Ok(middle) = first.end {
            let t = file_path_run(lookup(fields, Tree::Text("env_file"@))->0, vars, log, from).end;
            if t is Ok {
                law_setting_a_key(fields, Tree::Text("env_file"@), t->Ok_0, Tree::Text(key));
            }
            let d = depends_run(
                lookup(middle, Tree::Text("depends_on"@))->0,
                name@,
                path@,
                vars,
                log,
                from + first.acts.len(),
            ).end;
            if d is Ok {
                law_setting_a_key(middle, Tree::Text("depends_on"@), d->Ok_0, Tree::Text(key));
            }
        }
    }
}

/// Which services a service depends on cannot be computed: dependencies with a tag, or with an
/// expression in place of them, are refused, and nothing is asked for them.
pub proof fn law_dependencies_are_not_computed<S: Scripts>(
    value: Yaml,
    scripts: &mut S,
    path: &str,
    name: &str,
    sys_env: NameMap<String>,
    r: Result<Yaml, DaemonError>,
    fields: Seq<(Tree, Tree)>,
)
    requires
        call_ensures(prepare_service::<S>, (&value, scripts, path, name, &sys_env), r),
        value@ == Tree::Mapping(fields),
        lookup(fields, Tree::Text("env_file"@)) is None,
    ensures
        lookup(fields, Tree::Text("depends_on"@)) matches Some(Tree::Tagged(_, _)) ==> (r matches Err(
            DaemonError::Config(_),
        )) && final(scripts).log() == old(scripts).log(),
        lookup(fields, Tree::Text("depends_on"@)) matches Some(Tree::Text(s)) ==> {
            &&& occurs(s, "${{"@) ==> (r matches Err(DaemonError::Config(_)))
            &&& !occurs(s, "${{"@) ==> (r matches Ok(v) && v@ matches Tree::Mapping(done) && lookup(
                done,
                Tree::Text("depends_on"@),
            ) == Some(Tree::Text(s)))
            &&& final(scripts).log() == old(scripts).log()
        },
        lookup(fields, Tree::Text("depends_on"@)) is None ==> (r matches Ok(v) && v@ == value@)
            && final(scripts).log() == old(scripts).log(),
{
    reveal(service_run);
    let log = final(scripts).log();
    let from = old(scripts).log().len() as int;
    let vars = seen_vars(sys_env);
    let first = file_field_run(fields, vars, log, from);
    assert(first.acts =~= Seq::empty());
    assert(first.end->Ok_0 == fields);
    let t = lookup(fields, Tree::Text("depends_on"@));
    let run = service_fields_run(fields, name@, path@, vars, log, from);
    if t is Some {
        let d = depends_run(t->0, name@, path@, vars, log, from);
        assert(run.acts =~= d.acts);
        if d.end is Ok {
            law_setting_a_key(
                fields,
                Tree::Text("depends_on"@),
                d.end->Ok_0,
                Tree::Text("depends_on"@),
            );
        }
        if t->0 is Tagged || t->0 is Text {
            assert(log =~= old(scripts).log());
        }
    } else {
        assert(run.acts =~= Seq::empty());
        assert(log =~= old(scripts).log());
    }
}

/// The general settings are computed when a configuration is read, and nothing else of it: every
/// other entry is kept, and a configuration without general settings asks nothing.
pub proof fn law_only_general_settings_are_computed<S: Scripts>(
    value: &mut Yaml,
    scripts: &mut S,
    path: &str,
    sys_env: NameMap<String>,
    r: Result<(), DaemonError>,
    entries: Seq<(Tree, Tree)>,
    key: Seq<char>,
)
    requires
        call_ensures(process_lua_scripts::<S>, (value, scripts, path, &sys_env), r),
        old(value)@ == Tree::Mapping(entries),
    ensures
        !(lookup(entries, Tree::Text("kepler"@)) matches Some(Tree::Mapping(_))) ==> r is Ok
            && final(value)@ == old(value)@ && final(scripts).log() == old(scripts).log(),
        final(value)@ matches Tree::Mapping(done) && (key != "kepler"@ ==> lookup(
            done,
            Tree::Text(key),
        ) == lookup(entries, Tree::Text(key))),
{
    let log = final(scripts).log();
    let from = old(scripts).log().len() as int;
    let vars = seen_vars(sys_env);
    if let Some(Tree::Mapping(settings)) = lookup(entries, Tree::Text("kepler"@)) {
        law_setting_a_key(
            entries,
            Tree::Text("kepler"@),
            Tree::Mapping(crate::config::load::settings_left(settings, vars, log, from)),
            Tree::Text(key),
        );
    } else {
        assert(log =~= old(scripts).log());
    }
}

/// What is no mapping is no configuration: it is refused, and nothing is asked.
pub proof fn law_configuration_is_a_mapping<
    S: Scripts,
    K: Fn(&Yaml) -> Result<KeplerGlobalConfig, ParseFailure>,
    D: Fn(&Yaml) -> Result<RawServiceConfig, ParseFailure>,
>(
    root: Yaml,
    has_lua: bool,
    scripts: &mut S,
    path: &str,
    sys_env: NameMap<String>,
    decode_settings: K,
    decode: D,
    r: Result<KeplerConfig, DaemonError>,
)
    requires
        call_ensures(
            read_document::<S, K, D>,
            (&root, has_lua, scripts, path, &sys_env, &decode_settings, &decode),
            r,
        ),
        !(untagged(root@) is Mapping),
    ensures
        r matches Err(DaemonError::Config(_)),
        final(scripts).log() == old(scripts).log(),
{
}

/// The names of the services that were prepared are those that are written.
proof fn lemma_prepared_names(
    list: Seq<(Tree, Tree)>,
    n: nat,
    path: Seq<char>,
    vars: Seq<(Seq<char>, Sight)>,
    log: Log,
    from: int,
)
    requires
        n <= list.len(),
    ensures
        services_run(list, n, path, vars, log, from).end matches Ok(done) ==> done.len() == n
            && forall|i: int|
            0 <= i < n ==> untagged(list[i].0) == Tree::Text((#[trigger] done[i]).0),
    decreases n,
{
    if n > 0 {
        lemma_prepared_names(list, (n - 1) as nat, path, vars, log, from);
    }
}

/// The services by name are those of the list.
proof fn lemma_by_name(
    prepared: Seq<(Seq<char>, Tree)>,
    raws: Seq<RawServiceConfig>,
    n: nat,
    name: Seq<char>,
)
    requires
        n <= prepared.len(),
    ensures
        by_name(prepared, raws, n).contains_key(name) <==> exists|i: int|
            0 <= i < n && (#[trigger] prepared[i]).0 == name,
    decreases n,
{
    if n > 0 {
        lemma_by_name(prepared, raws, (n - 1) as nat, name);
        if prepared[n - 1].0 == name {
            assert(prepared[n - 1].0 == name);
        }
    }
}

/// A configuration with services only has exactly the services that are written, by name, and
/// neither code nor general settings; it is accepted only if it is valid.
pub proof fn law_services_are_those_written<
    S: Scripts,
    K: Fn(&Yaml) -> Result<KeplerGlobalConfig, ParseFailure>,
    D: Fn(&Yaml) -> Result<RawServiceConfig, ParseFailure>,
>(
    root: Yaml,
    scripts: &mut S,
    path: &str,
    sys_env: NameMap<String>,
    decode_settings: K,
    decode: D,
    r: Result<KeplerConfig, DaemonError>,
    list: Seq<(Tree, Tree)>,
    name: Seq<char>,
    valid: Result<(), DaemonError>,
)
    requires
        call_ensures(
            read_document::<S, K, D>,
            (&root, false, scripts, path, &sys_env, &decode_settings, &decode),
            r,
        ),
        root@ == Tree::Mapping(seq![(Tree::Text("services"@), Tree::Mapping(list))]),
        r is Ok ==> call_ensures(KeplerConfig::validate, (&r->Ok_0, path), valid),
    ensures
        r matches Ok(config) ==> {
            &&& config.lua is None
            &&& config.kepler is None
            &&& config.services@.contains_key(name) <==> exists|i: int|
                0 <= i < list.len() && untagged((#[trigger] list[i]).0) == Tree::Text(name)
            &&& valid is Ok
        },
{
    reveal_strlit("services");
    reveal_strlit("lua");
    reveal_strlit("kepler");
    assert("services"@.len() == 8 && "lua"@.len() == 3 && "kepler"@.len() == 6);
    reveal_with_fuel(key_index, 2);
    let entries = seq![(Tree::Text("services"@), Tree::Mapping(list))];
    assert(key_index(entries, Tree::Text("lua"@)) == 1);
    assert(key_index(entries, Tree::Text("kepler"@)) == 1);
    assert(key_index(entries, Tree::Text("services"@)) == 0);
    assert(taken(entries, "lua"@) == entries);
    assert(taken(entries, "kepler"@) == entries);
    assert(taken(entries, "services"@) =~= Seq::<(Tree, Tree)>::empty());
    assert(first_text_key(taken(entries, "services"@)) is None);
    let before = old(scripts).log();
    let after = final(scripts).log();
    let vars = seen_vars(sys_env);
    if let Ok(config) = r {
        reveal(services_part);
        let middle = choose|middle: Log| #[trigger]
            document_step(
                root@,
                false,
                path@,
                vars,
                decode_settings,
                decode,
                before,
                middle,
                after,
                r,
            );
        let raws = choose|raws: Seq<RawServiceConfig>| #[trigger]
            services_read(list, path@, vars, decode, middle, after, raws, config.services);
        let run = services_run(list, list.len(), path@, vars, after, middle.len() as int);
        let prepared = run.end->Ok_0;
        lemma_prepared_names(list, list.len(), path@, vars, after, middle.len() as int);
        lemma_by_name(prepared, raws, raws.len(), name);
        if config.services@.contains_key(name) {
            let i = choose|i: int| 0 <= i < prepared.len() && (#[trigger] prepared[i]).0 == name;
            assert(untagged(list[i].0) == Tree::Text(name));
        }
        if exists|i: int|
            0 <= i < list.len() && untagged((#[trigger] list[i]).0) == Tree::Text(name) {
            let i = choose|i: int|
                0 <= i < list.len() && untagged((#[trigger] list[i]).0) == Tree::Text(name);
            assert(prepared[i].0 == name);
        }
    }
}

/// The code of a configuration is the text under its key.
pub proof fn law_code_is_kept<
    S: Scripts,
    K: Fn(&Yaml) -> Result<KeplerGlobalConfig, ParseFailure>,
    D: Fn(&Yaml) -> Result<RawServiceConfig, ParseFailure>,
>(
    root: Yaml,
    scripts: &mut S,
    path: &str,
    sys_env: NameMap<String>,
    decode_settings: K,
    decode: D,
    r: Result<KeplerConfig, DaemonError>,
    code: Seq<char>,
)
    requires
        call_ensures(
            read_document::<S, K, D>,
            (&root, false, scripts, path, &sys_env, &decode_settings, &decode),
            r,
        ),
        root@ == Tree::Mapping(seq![(Tree::Text("lua"@), Tree::Text(code))]),
    ensures
        r matches Ok(config) ==> (config.lua matches Some(c) && c@ == code) && config.kepler is None,
        final(scripts).log() == old(scripts).log(),
{
    reveal_strlit("services");
    reveal_strlit("lua");
    reveal_strlit("kepler");
    assert("services"@.len() == 8 && "lua"@.len() == 3 && "kepler"@.len() == 6);
    reveal_with_fuel(key_index, 2);
    let entries = seq![(Tree::Text("lua"@), Tree::Text(code))];
    let none = Seq::<(Tree, Tree)>::empty();
    assert(key_index(entries, Tree::Text("lua"@)) == 0);
    assert(taken(entries, "lua"@) =~= none);
    assert(taken(none, "kepler"@) == none);
    assert(taken(none, "services"@) == none);
    assert(first_text_key(none) is None);
    let before = old(scripts).log();
    let after = final(scripts).log();
    let vars = seen_vars(sys_env);
    reveal(services_part);
    let middle = choose|middle: Log| #[trigger]
        document_step(
            root@,
            false,
            path@,
            vars,
            decode_settings,
            decode,
            before,
            middle,
            after,
            r,
        );
    assert(middle =~= before);
    assert(services_run(none, 0, path@, vars, after, middle.len() as int).acts
        =~= Seq::<Act>::empty());
    if r is Err {
        if exists|k: int| #[trigger]
            services_fail(none, path@, vars, decode, middle, after, k, r->Err_0) {
            assert(false);
        }
    }
    assert(after =~= before);
}

/// An entry at the root that is not known is refused by its name, and nothing is asked.
pub proof fn law_unknown_entry_is_refused<
    S: Scripts,
    K: Fn(&Yaml) -> Result<KeplerGlobalConfig, ParseFailure>,
    D: Fn(&Yaml) -> Result<RawServiceConfig, ParseFailure>,
>(
    root: Yaml,
    scripts: &mut S,
    path: &str,
    sys_env: NameMap<String>,
    decode_settings: K,
    decode: D,
    r: Result<KeplerConfig, DaemonError>,
    key: Seq<char>,
    value: Tree,
)
    requires
        call_ensures(
            read_document::<S, K, D>,
            (&root, false, scripts, path, &sys_env, &decode_settings, &decode),
            r,
        ),
        root@ == Tree::Mapping(seq![(Tree::Text(key), value)]),
        key != "lua"@ && key != "kepler"@ && key != "services"@,
    ensures
        r matches Err(DaemonError::Config(m)) && m@ == "Configuration errors in "@ + path@
            + ":\n  - unknown field `"@ + key + "` at root level"@,
        final(scripts).log() == old(scripts).log(),
{
    reveal_with_fuel(key_index, 2);
    let entries = seq![(Tree::Text(key), value)];
    assert(key_index(entries, Tree::Text("lua"@)) == 1);
    assert(key_index(entries, Tree::Text("kepler"@)) == 1);
    assert(key_index(entries, Tree::Text("services"@)) == 1);
    assert(taken(entries, "lua"@) == entries);
    assert(taken(entries, "kepler"@) == entries);
    assert(taken(entries, "services"@) == entries);
    assert(first_text_key(entries) == Some(key));
    let before = old(scripts).log();
    let after = final(scripts).log();
    let vars = seen_vars(sys_env);
    let middle = choose|middle: Log| #[trigger]
        document_step(
            root@,
            false,
            path@,
            vars,
            decode_settings,
            decode,
            before,
            middle,
            after,
            r,
        );
    assert(middle =~= before);
}

/// Reading a tree that is accepted gives a valid configuration.
proof fn lemma_document_valid<
    K: Fn(&Yaml) -> Result<KeplerGlobalConfig, ParseFailure>,
    D: Fn(&Yaml) -> Result<RawServiceConfig, ParseFailure>,
>(
    root: Tree,
    has_lua: bool,
    path: Seq<char>,
    vars: Seq<(Seq<char>, Sight)>,
    decode_settings: K,
    decode: D,
    before: Log,
    middle: Log,
    after: Log,
    config: KeplerConfig,
)
    requires
        document_step(
            root,
            has_lua,
            path,
            vars,
            decode_settings,
            decode,
            before,
            middle,
            after,
            Ok(config),
        ),
    ensures
        config.faults().len() == 0,
{
    reveal(services_part);
}

/// A configuration that is loaded is valid, and contents that cannot be parsed are reported with
/// the path of the file.
pub proof fn law_loaded_configuration_is_valid<
    K: Fn(&Yaml) -> Result<KeplerGlobalConfig, ParseFailure>,
    D: Fn(&Yaml) -> Result<RawServiceConfig, ParseFailure>,
>(
    path: &str,
    contents: &str,
    sys_env: NameMap<String>,
    decode_settings: K,
    decode: D,
    r: Result<KeplerConfig, DaemonError>,
    valid: Result<(), DaemonError>,
)
    requires
        call_ensures(
            KeplerConfig::load::<K, D>,
            (path, contents, &sys_env, &decode_settings, &decode),
            r,
        ),
        r is Ok ==> call_ensures(KeplerConfig::validate, (&r->Ok_0, path), valid),
    ensures
        r is Ok ==> valid is Ok,
        yaml_tree(contents@) is Err ==> (r matches Err(DaemonError::ConfigParse { path: p, .. })
            && p@ == path@),
{
    if let Ok(config) = r {
        let root = yaml_tree(contents@)->Ok_0;
        let vars = seen_vars(sys_env);
        let entries = untagged(root)->Mapping_0;
        let has_lua = occurs(contents@, "!lua"@);
        let before = crate::lua_eval::defined_all(
            crate::config::start::definitions(crate::config::reading::code_of(entries)),
        );
        let (middle, after) = choose|middle: Log, after: Log|
            crate::lua_eval::genuine(after) && #[trigger] document_step(
                root,
                has_lua,
                path@,
                vars,
                decode_settings,
                decode,
                before,
                middle,
                after,
                r,
            );
        lemma_document_valid(
            root,
            has_lua,
            path@,
            vars,
            decode_settings,
            decode,
            before,
            middle,
            after,
            config,
        );
    }
}

/// What is asked for code: the context is shown, and then the code runs under its path.
proof fn lemma_code_acts(code: Seq<char>, place: Seq<char>, build: Act, log: Log, from: int)
    ensures
        ({
            let tagged = Tree::Tagged("lua"@, Box::new(Tree::Text(code)));
            let run = whole_run(tagged, place, build, log, from);
            &&& run.acts.len() >= 1
            &&& run.acts[0] == build
            &&& log[from].1 is Value ==> run.acts == seq![
                build,
                Act::Run { form: Form::Block, code, chunk: place },
            ]
            &&& log[from].1 is Fault ==> run.acts == seq![build]
        }),
{
    let tagged = Tree::Tagged("lua"@, Box::new(Tree::Text(code)));
    let run = whole_run(tagged, place, build, log, from);
    let leaf = crate::config::evaluate::leaf_run(
        crate::config::expr::Computed::Lua(code),
        place,
        false,
        build,
        log,
        from,
    );
    assert(run.acts == leaf.acts);
    if log[from].1 is Value {
        assert(run.acts =~= seq![build, Act::Run { form: Form::Block, code, chunk: place }]);
    }
}

/// The code of the general log settings runs under the path of those settings, and that of a
/// general hook under the path of the hook, whose name it sees. No service is seen by either.
pub proof fn law_general_code_runs_under_its_path<S: Scripts>(
    value: &mut Yaml,
    scripts: &mut S,
    path: &str,
    sys_env: NameMap<String>,
    r: Result<(), DaemonError>,
    hook: Option<Seq<char>>,
    code: Seq<char>,
)
    requires
        call_ensures(process_lua_scripts::<S>, (value, scripts, path, &sys_env), r),
        ({
            let tagged = Tree::Tagged("lua"@, Box::new(Tree::Text(code)));
            let settings = match hook {
                None => (Tree::Text("logs"@), tagged),
                Some(h) => (Tree::Text("hooks"@), Tree::Mapping(seq![(Tree::Text(h), tagged)])),
            };
            old(value)@ == Tree::Mapping(
                seq![(Tree::Text("kepler"@), Tree::Mapping(seq![settings]))],
            )
        }),
    ensures
        ({
            let log = final(scripts).log();
            let from = old(scripts).log().len() as int;
            let place = match hook {
                None => "kepler.logs"@,
                Some(h) => "kepler.hooks."@ + h,
            };
            &&& log.len() > from
            &&& log[from].0 is Build
            &&& log[from].0->scene.len() == 5
            &&& log[from].0->scene[1] == ("service"@, Sight::Nil)
            &&& hook is None ==> log[from].0->scene[2] == ("hook"@, Sight::Nil)
            &&& hook matches Some(h) ==> log[from].0->scene[2].0 == "hook"@ && (
            log[from].0->scene[2].1 matches Sight::Names(list) && list.len() > 0 && list[0] == (
                "name"@,
                Sight::Text(h),
            ))
            &&& log[from].1 is Value ==> log.len() == from + 2 && log[from + 1].0 == (Act::Run {
                form: Form::Block,
                code,
                chunk: place,
            })
        }),
{
    reveal_strlit("kepler");
    reveal_strlit("logs");
    reveal_strlit("hooks");
    assert("kepler"@.len() == 6 && "logs"@.len() == 4 && "hooks"@.len() == 5);
    let log = final(scripts).log();
    let from = old(scripts).log().len() as int;
    let vars = seen_vars(sys_env);
    let tagged = Tree::Tagged("lua"@, Box::new(Tree::Text(code)));
    let settings = match hook {
        None => (Tree::Text("logs"@), tagged),
        Some(h) => (Tree::Text("hooks"@), Tree::Mapping(seq![(Tree::Text(h), tagged)])),
    };
    let inner = seq![settings];
    let entries = seq![(Tree::Text("kepler"@), Tree::Mapping(inner))];
    lemma_key_index_unique(entries, Tree::Text("kepler"@), 0);
    let build = general_act(hook, vars);
    let place = match hook {
        None => "kepler.logs"@,
        Some(h) => "kepler.hooks."@ + h,
    };
    let whole = whole_run(tagged, place, build, log, from);
    lemma_code_acts(code, place, build, log, from);
    let first = log_settings_run(inner, vars, log, from);
    let run = settings_run(inner, vars, log, from);
    match hook {
        None => {
            lemma_key_index_unique(inner, Tree::Text("logs"@), 0);
            assert(first.acts == whole.acts);
            if let Ok(middle) = first.end {
                assert(middle.len() == 1 && middle[0].0 == Tree::Text("logs"@));
                lemma_key_index_unique(middle, Tree::Text("hooks"@), 1);
                assert(run.acts =~= whole.acts);
            }
        },
        Some(h) => {
            lemma_key_index_unique(inner, Tree::Text("logs"@), 1);
            lemma_key_index_unique(inner, Tree::Text("hooks"@), 0);
            assert(first.acts.len() == 0 && first.end->Ok_0 == inner);
            let hooks = seq![(Tree::Text(h), tagged)];
            let none = hooks_run(hooks, 0, vars, log, from);
            assert(none.acts.len() == 0);
            assert(hooks_run(hooks, 1, vars, log, from).acts =~= whole.acts);
            assert(run.acts =~= whole.acts);
        },
    }
    assert(log[from].0 == whole.acts[0]);
    if log[from].1 is Value {
        assert(log[from + 1].0 == whole.acts[1]);
    }
}

} // verus!
