//! Reading a configuration: from a tree to a checked configuration.
use vstd::prelude::*;
use vstd::string::*;
use crate::config::evaluate::{
    agree, build_act, build_fault, ends_with, evaluate_expression_string, evaluate_value_tree,
    extends, lemma_extends_agree, lemma_extends_twice, lemma_text_run, lemma_tree_run, reports,
    text_run, Fault, Run,
};
use crate::config::expand::pieces_of;
use crate::config::load::{part_run, put_at, service_act, service_context, whole_run};
use crate::config::resolve::Log;
use crate::errors::DaemonError;
use crate::lua_eval::{seen_vars, Act, EvalContext, Reply, Scripts, Sight};
use crate::name_map::NameMap;
use crate::text::{concat, concat3, concat5, contains, occurs, opt_view};
use crate::value::{
    entry_trees, find_key, key_index, lemma_key_index, lemma_tree_parts, lookup, trees,
    untagged, Tree, Yaml,
};

verus! {

/// The greatest size of a configuration file: ten mebibytes.
pub const MAX_CONFIG_FILE_SIZE: u64 = 10485760;

/// Refuses a configuration file that is too large.
pub fn check_config_size(path: &str, size: u64) -> (r: Result<(), DaemonError>)
    ensures
        match r {
            Ok(_) => size <= MAX_CONFIG_FILE_SIZE,
            Err(e) => size > MAX_CONFIG_FILE_SIZE && (e matches DaemonError::Internal(m) && m@
                == "Config file '"@ + path@ + "' is too large ("@ + crate::number::decimal(
                size as nat,
            ) + " bytes, max 10485760 bytes)"@),
        },
{
    if size > MAX_CONFIG_FILE_SIZE {
        let text = concat5(
            "Config file '",
            path,
            "' is too large (",
            crate::number::format_u64(size).as_str(),
            " bytes, max 10485760 bytes)",
        );
        return Err(DaemonError::Internal(text));
    }
    Ok(())
}

/// A tree with the tags of `t` around `inner`.
pub open spec fn retagged(t: Tree, inner: Tree) -> Tree
    decreases t,
{
    match t {
        Tree::Tagged(tag, v) => Tree::Tagged(tag, Box::new(retagged(*v, inner))),
        _ => inner,
    }
}

/// A value with the tags of `value` around `inner`.
pub(crate) fn retag(value: &Yaml, inner: Yaml) -> (r: Yaml)
    ensures
        r@ == retagged(value@, inner@),
    decreases value,
{
    match value {
        Yaml::Tagged { tag, value: v } => Yaml::Tagged {
            tag: tag.clone(),
            value: Box::new(retag(&**v, inner)),
        },
        _ => inner,
    }
}

/// The entries without a key; the last entry takes its place.
pub open spec fn taken(entries: Seq<(Tree, Tree)>, key: Seq<char>) -> Seq<(Tree, Tree)> {
    let i = key_index(entries, Tree::Text(key));
    if i < entries.len() {
        entries.update(i, entries.last()).drop_last()
    } else {
        entries
    }
}

/// Takes a key out of a mapping; the last entry takes its place.
pub(crate) fn take_key(entries: &mut Vec<(Yaml, Yaml)>, key: &str) -> (r: Option<Yaml>)
    ensures
        entry_trees(final(entries)@) == taken(entry_trees(old(entries)@), key@),
        match r {
            Some(v) => lookup(entry_trees(old(entries)@), Tree::Text(key@)) == Some(v@),
            None => lookup(entry_trees(old(entries)@), Tree::Text(key@)) is None,
        },
{
    let ghost all = entry_trees(entries@);
    proof {
        lemma_key_index(all, Tree::Text(key@));
    }
    match find_key(entries, key) {
        Some(i) => {
            let ghost before = entries@;
            let (_, value) = entries.swap_remove(i);
            assert(entry_trees(entries@) =~= all.update(i as int, all.last()).drop_last());
            Some(value)
        },
        None => None,
    }
}

/// The first key of a mapping that is a text.
pub open spec fn first_text_key(entries: Seq<(Tree, Tree)>) -> Option<Seq<char>>
    decreases entries.len(),
{
    if entries.len() == 0 {
        None
    } else {
        match untagged(entries[0].0) {
            Tree::Text(s) => Some(s),
            _ => first_text_key(entries.skip(1)),
        }
    }
}

/// The first key of a mapping that is a text.
pub(crate) fn find_text_key(entries: &Vec<(Yaml, Yaml)>) -> (r: Option<String>)
    ensures
        opt_view(r) == first_text_key(entry_trees(entries@)),
{
    let ghost all = entry_trees(entries@);
    let mut i: usize = 0;
    assert(all.skip(0) == all);
    while i < entries.len()
        invariant
            i <= entries@.len(),
            all == entry_trees(entries@),
            first_text_key(all) == first_text_key(all.skip(i as int)),
        decreases entries@.len() - i,
    {
        assert(all.skip(i as int)[0] == all[i as int]);
        assert(all.skip(i as int).skip(1) == all.skip(i + 1));
        if let Some(s) = entries[i].0.as_str() {
            return Some(s.to_owned());
        }
        i += 1;
    }
    None
}

/// Computes the settings of the first `n` dependencies of a mapping. A setting that is no mapping
/// is left as it is.
pub open spec fn dep_entries_run(
    entries: Seq<(Tree, Tree)>,
    n: nat,
    place: Seq<char>,
    build: Act,
    log: Log,
    from: int,
) -> Run<Seq<(Tree, Tree)>>
    decreases n,
{
    if n == 0 || n > entries.len() {
        Run { acts: seq![], end: Ok(seq![]) }
    } else {
        let front = dep_entries_run(entries, (n - 1) as nat, place, build, log, from);
        match front.end {
            Err(f) => front,
            Ok(done) => if untagged(entries[n - 1].1) is Mapping {
                let r = whole_run(
                    entries[n - 1].1,
                    place,
                    build,
                    log,
                    from + front.acts.len(),
                );
                Run {
                    acts: front.acts + r.acts,
                    end: match r.end {
                        Ok(t) => Ok(done.push((entries[n - 1].0, t))),
                        Err(f) => Err(f),
                    },
                }
            } else {
                Run { acts: front.acts, end: Ok(done.push(entries[n - 1])) }
            },
        }
    }
}

/// Computes the settings of the dependencies in the first `n` items of a list.
pub open spec fn dep_items_run(
    items: Seq<Tree>,
    n: nat,
    place: Seq<char>,
    build: Act,
    log: Log,
    from: int,
) -> Run<Seq<Tree>>
    decreases n,
{
    if n == 0 || n > items.len() {
        Run { acts: seq![], end: Ok(seq![]) }
    } else {
        let front = dep_items_run(items, (n - 1) as nat, place, build, log, from);
        match front.end {
            Err(f) => front,
            Ok(done) => match items[n - 1] {
                Tree::Mapping(entries) => {
                    let r = dep_entries_run(
                        entries,
                        entries.len(),
                        place,
                        build,
                        log,
                        from + front.acts.len(),
                    );
                    Run {
                        acts: front.acts + r.acts,
                        end: match r.end {
                            Ok(es) => Ok(done.push(Tree::Mapping(es))),
                            Err(f) => Err(f),
                        },
                    }
                },
                _ => Run { acts: front.acts, end: Ok(done.push(items[n - 1])) },
            },
        }
    }
}

/// The path of the dependencies of a service.
pub open spec fn depends_place(name: Seq<char>) -> Seq<char> {
    name + ".depends_on"@
}

/// The message on dependencies with a tag.
pub open spec fn tag_fault(path: Seq<char>, name: Seq<char>, tag: Seq<char>) -> Fault {
    Fault::Config(
        "Configuration errors in "@ + path + ":\n  - "@ + depends_place(name) + ": !!"@ + tag
            + " is not allowed on depends_on itself (dependency names must be static); use !lua/${{ }}$ inside dependency config fields (condition, timeout, etc.) instead"@,
    )
}

/// The message on dependencies that are an expression.
pub open spec fn expression_in_depends_fault(path: Seq<char>, name: Seq<char>) -> Fault {
    Fault::Config(
        "Configuration errors in "@ + path + ":\n  - "@ + depends_place(name)
            + ": ${{ }}$ expressions are not allowed on depends_on itself (dependency names must be static); use them inside dependency config fields (condition, timeout, etc.) instead"@,
    )
}

/// Computes the settings of dependencies. Which services they are cannot be computed.
pub open spec fn depends_run(
    t: Tree,
    name: Seq<char>,
    path: Seq<char>,
    vars: Seq<(Seq<char>, Sight)>,
    log: Log,
    from: int,
) -> Run<Tree> {
    let build = service_act(name, vars);
    let place = depends_place(name);
    match t {
        Tree::Tagged(tag, _) => Run { acts: seq![], end: Err(tag_fault(path, name, tag)) },
        Tree::Text(s) => if occurs(s, "${{"@) {
            Run { acts: seq![], end: Err(expression_in_depends_fault(path, name)) }
        } else {
            Run { acts: seq![], end: Ok(t) }
        },
        Tree::Mapping(entries) => {
            let r = dep_entries_run(entries, entries.len(), place, build, log, from);
            Run {
                acts: r.acts,
                end: match r.end {
                    Ok(es) => Ok(Tree::Mapping(es)),
                    Err(f) => Err(f),
                },
            }
        },
        Tree::Sequence(items) => {
            let r = dep_items_run(items, items.len(), place, build, log, from);
            Run {
                acts: r.acts,
                end: match r.end {
                    Ok(es) => Ok(Tree::Sequence(es)),
                    Err(f) => Err(f),
                },
            }
        },
        _ => Run { acts: seq![], end: Ok(t) },
    }
}

/// Fills the path of an environment file.
pub open spec fn file_path_run(
    t: Tree,
    vars: Seq<(Seq<char>, Sight)>,
    log: Log,
    from: int,
) -> Run<Tree> {
    match untagged(t) {
        Tree::Text(s) => if occurs(s, "${{"@) {
            match log[from].1 {
                Reply::Fault(m) => Run {
                    acts: seq![service_act(""@, vars)],
                    end: Err(build_fault(m)),
                },
                Reply::Value(_) => {
                    let r = text_run(pieces_of(s), "env_file"@, log, from + 1);
                    Run {
                        acts: seq![service_act(""@, vars)] + r.acts,
                        end: match r.end {
                            Ok(text) => Ok(Tree::Text(text)),
                            Err(f) => Err(f),
                        },
                    }
                },
            }
        } else {
            Run { acts: seq![], end: Ok(t) }
        },
        _ => Run { acts: seq![], end: Ok(t) },
    }
}

/// Computes the path of the environment file in the fields of a service.
pub open spec fn file_field_run(
    fields: Seq<(Tree, Tree)>,
    vars: Seq<(Seq<char>, Sight)>,
    log: Log,
    from: int,
) -> Run<Seq<(Tree, Tree)>> {
    part_run(
        fields,
        "env_file"@,
        file_path_run(lookup(fields, Tree::Text("env_file"@))->0, vars, log, from),
    )
}

/// Computes the fields of a service that cannot wait until it starts: the path of its environment
/// file, and the settings of its dependencies.
pub open spec fn service_fields_run(
    fields: Seq<(Tree, Tree)>,
    name: Seq<char>,
    path: Seq<char>,
    vars: Seq<(Seq<char>, Sight)>,
    log: Log,
    from: int,
) -> Run<Seq<(Tree, Tree)>> {
    let first = file_field_run(fields, vars, log, from);
    match first.end {
        Err(f) => first,
        Ok(middle) => {
            let second = part_run(
                middle,
                "depends_on"@,
                depends_run(
                    lookup(middle, Tree::Text("depends_on"@))->0,
                    name,
                    path,
                    vars,
                    log,
                    from + first.acts.len(),
                ),
            );
            Run { acts: first.acts + second.acts, end: second.end }
        },
    }
}

/// Computes what cannot wait until a service starts.
#[verifier::opaque]
pub open spec fn service_run(
    t: Tree,
    name: Seq<char>,
    path: Seq<char>,
    vars: Seq<(Seq<char>, Sight)>,
    log: Log,
    from: int,
) -> Run<Tree> {
    match untagged(t) {
        Tree::Mapping(fields) => {
            let r = service_fields_run(fields, name, path, vars, log, from);
            Run {
                acts: r.acts,
                end: match r.end {
                    Ok(done) => Ok(retagged(t, Tree::Mapping(done))),
                    Err(f) => Err(f),
                },
            }
        },
        _ => Run { acts: seq![], end: Ok(t) },
    }
}

proof fn lemma_dep_entries_run(
    entries: Seq<(Tree, Tree)>,
    n: nat,
    place: Seq<char>,
    build: Act,
    a: Log,
    b: Log,
    from: int,
)
    requires
        0 <= from,
        agree(a, b, from + dep_entries_run(entries, n, place, build, a, from).acts.len()),
    ensures
        dep_entries_run(entries, n, place, build, a, from) == dep_entries_run(
            entries,
            n,
            place,
            build,
            b,
            from,
        ),
    decreases n,
{
    if n > 0 && n <= entries.len() {
        lemma_dep_entries_run(entries, (n - 1) as nat, place, build, a, b, from);
        let front = dep_entries_run(entries, (n - 1) as nat, place, build, a, from);
        if front.end is Ok && untagged(entries[n - 1].1) is Mapping {
            lemma_tree_run(
                entries[n - 1].1,
                place,
                false,
                false,
                build,
                a,
                b,
                from + front.acts.len(),
            );
        }
    }
}

proof fn lemma_dep_entries_stop(
    entries: Seq<(Tree, Tree)>,
    n: nat,
    place: Seq<char>,
    build: Act,
    log: Log,
    from: int,
)
    requires
        n <= entries.len(),
        dep_entries_run(entries, n, place, build, log, from).end is Err,
    ensures
        dep_entries_run(entries, entries.len(), place, build, log, from) == dep_entries_run(
            entries,
            n,
            place,
            build,
            log,
            from,
        ),
    decreases entries.len() - n,
{
    if n < entries.len() {
        lemma_dep_entries_stop(entries, n + 1, place, build, log, from);
    }
}

proof fn lemma_dep_items_run(
    items: Seq<Tree>,
    n: nat,
    place: Seq<char>,
    build: Act,
    a: Log,
    b: Log,
    from: int,
)
    requires
        0 <= from,
        agree(a, b, from + dep_items_run(items, n, place, build, a, from).acts.len()),
    ensures
        dep_items_run(items, n, place, build, a, from) == dep_items_run(
            items,
            n,
            place,
            build,
            b,
            from,
        ),
    decreases n,
{
    if n > 0 && n <= items.len() {
        lemma_dep_items_run(items, (n - 1) as nat, place, build, a, b, from);
        let front = dep_items_run(items, (n - 1) as nat, place, build, a, from);
        if front.end is Ok {
            if let Tree::Mapping(entries) = items[n - 1] {
                lemma_dep_entries_run(
                    entries,
                    entries.len(),
                    place,
                    build,
                    a,
                    b,
                    from + front.acts.len(),
                );
            }
        }
    }
}

proof fn lemma_dep_items_stop(
    items: Seq<Tree>,
    n: nat,
    place: Seq<char>,
    build: Act,
    log: Log,
    from: int,
)
    requires
        n <= items.len(),
        dep_items_run(items, n, place, build, log, from).end is Err,
    ensures
        dep_items_run(items, items.len(), place, build, log, from) == dep_items_run(
            items,
            n,
            place,
            build,
            log,
            from,
        ),
    decreases items.len() - n,
{
    if n < items.len() {
        lemma_dep_items_stop(items, n + 1, place, build, log, from);
    }
}

/// Whether entries are what a run ends with.
pub open spec fn entries_end(
    r: Result<Vec<(Yaml, Yaml)>, DaemonError>,
    path: Seq<char>,
    end: Result<Seq<(Tree, Tree)>, Fault>,
) -> bool {
    match r {
        Ok(list) => end == Ok::<Seq<(Tree, Tree)>, Fault>(entry_trees(list@)),
        Err(e) => end matches Err(f) && reports(e, path, f),
    }
}

/// Computes the settings of the dependencies of a mapping.
fn process_dep_entries<S: Scripts>(
    entries: &Vec<(Yaml, Yaml)>,
    scripts: &mut S,
    ctx: &EvalContext,
    config_path: &str,
    place: &str,
) -> (r: Result<Vec<(Yaml, Yaml)>, DaemonError>)
    ensures
        ({
            let run = dep_entries_run(
                entry_trees(entries@),
                entries@.len(),
                place@,
                build_act(*ctx, false),
                final(scripts).log(),
                old(scripts).log().len() as int,
            );
            &&& extends(old(scripts).log(), final(scripts).log(), run.acts)
            &&& entries_end(r, config_path@, run.end)
        }),
{
    let ghost all = entry_trees(entries@);
    let ghost build = build_act(*ctx, false);
    let ghost start = scripts.log();
    let ghost from = start.len() as int;
    let mut out: Vec<(Yaml, Yaml)> = Vec::new();
    let mut i: usize = 0;
    assert(entry_trees(out@) == Seq::<(Tree, Tree)>::empty());
    while i < entries.len()
        invariant
            i <= entries@.len(),
            all == entry_trees(entries@),
            build == build_act(*ctx, false),
            start == old(scripts).log(),
            from == start.len(),
            ({
                let run = dep_entries_run(all, i as nat, place@, build, scripts.log(), from);
                &&& extends(start, scripts.log(), run.acts)
                &&& run.end == Ok::<Seq<(Tree, Tree)>, Fault>(entry_trees(out@))
            }),
        decreases entries@.len() - i,
    {
        let ghost before = scripts.log();
        let ghost done = entry_trees(out@);
        let ghost front = dep_entries_run(all, i as nat, place@, build, before, from);
        assert(all[i as int] == (entries@[i as int].0@, entries@[i as int].1@));
        let key = entries[i].0.copy();
        let mut value = entries[i].1.copy();
        let is_mapping = match value.untag() {
            Yaml::Mapping(_) => true,
            _ => false,
        };
        if is_mapping {
            let r = evaluate_value_tree(&mut value, scripts, ctx, config_path, place);
            proof {
                let now = scripts.log();
                let run = whole_run(all[i as int].1, place@, build, now, before.len() as int);
                lemma_extends_agree(before, now, run.acts);
                lemma_dep_entries_run(all, i as nat, place@, build, before, now, from);
                lemma_extends_twice(start, before, now, front.acts, run.acts);
            }
            if let Err(e) = r {
                proof {
                    lemma_dep_entries_stop(all, (i + 1) as nat, place@, build, scripts.log(), from);
                }
                return Err(e);
            }
        }
        out.push((key, value));
        assert(entry_trees(out@) == done.push((key@, value@)));
        i += 1;
    }
    Ok(out)
}

/// Computes the settings of the dependencies of a list.
fn process_dep_items<S: Scripts>(
    items: &Vec<Yaml>,
    scripts: &mut S,
    ctx: &EvalContext,
    config_path: &str,
    place: &str,
) -> (r: Result<Vec<Yaml>, DaemonError>)
    ensures
        ({
            let run = dep_items_run(
                trees(items@),
                items@.len(),
                place@,
                build_act(*ctx, false),
                final(scripts).log(),
                old(scripts).log().len() as int,
            );
            &&& extends(old(scripts).log(), final(scripts).log(), run.acts)
            &&& match r {
                Ok(list) => run.end == Ok::<Seq<Tree>, Fault>(trees(list@)),
                Err(e) => run.end matches Err(f) && reports(e, config_path@, f),
            }
        }),
{
    broadcast use lemma_tree_parts;

    let ghost all = trees(items@);
    let ghost build = build_act(*ctx, false);
    let ghost start = scripts.log();
    let ghost from = start.len() as int;
    let mut out: Vec<Yaml> = Vec::new();
    let mut i: usize = 0;
    assert(trees(out@) == Seq::<Tree>::empty());
    while i < items.len()
        invariant
            i <= items@.len(),
            all == trees(items@),
            build == build_act(*ctx, false),
            start == old(scripts).log(),
            from == start.len(),
            ({
                let run = dep_items_run(all, i as nat, place@, build, scripts.log(), from);
                &&& extends(start, scripts.log(), run.acts)
                &&& run.end == Ok::<Seq<Tree>, Fault>(trees(out@))
            }),
        decreases items@.len() - i,
    {
        let ghost before = scripts.log();
        let ghost done = trees(out@);
        let ghost front = dep_items_run(all, i as nat, place@, build, before, from);
        assert(all[i as int] == items@[i as int]@);
        let value = match &items[i] {
            Yaml::Mapping(entries) => {
                let r = process_dep_entries(entries, scripts, ctx, config_path, place);
                proof {
                    let now = scripts.log();
                    let es = entry_trees(entries@);
                    lemma_tree_parts(items@[i as int]);
                    assert(all[i as int] == Tree::Mapping(es));
                    let run = dep_entries_run(
                        es,
                        es.len(),
                        place@,
                        build,
                        now,
                        before.len() as int,
                    );
                    lemma_extends_agree(before, now, run.acts);
                    lemma_dep_items_run(all, i as nat, place@, build, before, now, from);
                    lemma_extends_twice(start, before, now, front.acts, run.acts);
                }
                match r {
                    Ok(list) => Yaml::Mapping(list),
                    Err(e) => {
                        proof {
                            lemma_dep_items_stop(
                                all,
                                (i + 1) as nat,
                                place@,
                                build,
                                scripts.log(),
                                from,
                            );
                        }
                        return Err(e);
                    },
                }
            },
            other => other.copy(),
        };
        proof {
            lemma_tree_parts(value);
        }
        out.push(value);
        assert(trees(out@) == done.push(value@));
        i += 1;
    }
    Ok(out)
}

/// Computes the settings of dependencies, and refuses dependencies that are computed themselves.
fn process_depends<S: Scripts>(
    value: &Yaml,
    scripts: &mut S,
    config_path: &str,
    name: &str,
    sys_env: &NameMap<String>,
) -> (r: Result<Yaml, DaemonError>)
    ensures
        ({
            let run = depends_run(
                value@,
                name@,
                config_path@,
                seen_vars(*sys_env),
                final(scripts).log(),
                old(scripts).log().len() as int,
            );
            &&& extends(old(scripts).log(), final(scripts).log(), run.acts)
            &&& ends_with(r, config_path@, run.end)
        }),
{
    broadcast use lemma_tree_parts;

    let place = concat(name, ".depends_on");
    match value {
        Yaml::Tagged { tag, .. } => {
            let head = concat5(
                "Configuration errors in ",
                config_path,
                ":\n  - ",
                place.as_str(),
                ": !!",
            );
            let text = concat3(
                head.as_str(),
                tag.as_str(),
                " is not allowed on depends_on itself (dependency names must be static); use !lua/${{ }}$ inside dependency config fields (condition, timeout, etc.) instead",
            );
            Err(DaemonError::Config(text))
        },
        Yaml::String(s) => {
            if contains(s.as_str(), "${{") {
                Err(
                    DaemonError::Config(
                        concat5(
                            "Configuration errors in ",
                            config_path,
                            ":\n  - ",
                            place.as_str(),
                            ": ${{ }}$ expressions are not allowed on depends_on itself (dependency names must be static); use them inside dependency config fields (condition, timeout, etc.) instead",
                        ),
                    ),
                )
            } else {
                Ok(value.copy())
            }
        },
        Yaml::Mapping(entries) => {
            let ctx = service_context(name, sys_env);
            match process_dep_entries(entries, scripts, &ctx, config_path, place.as_str()) {
                Ok(list) => Ok(Yaml::Mapping(list)),
                Err(e) => Err(e),
            }
        },
        Yaml::Sequence(items) => {
            let ctx = service_context(name, sys_env);
            match process_dep_items(items, scripts, &ctx, config_path, place.as_str()) {
                Ok(list) => Ok(Yaml::Sequence(list)),
                Err(e) => Err(e),
            }
        },
        _ => Ok(value.copy()),
    }
}

/// Fills the path of an environment file.
fn process_file_path<S: Scripts>(
    value: &Yaml,
    scripts: &mut S,
    config_path: &str,
    sys_env: &NameMap<String>,
) -> (r: Result<Yaml, DaemonError>)
    ensures
        ({
            let run = file_path_run(
                value@,
                seen_vars(*sys_env),
                final(scripts).log(),
                old(scripts).log().len() as int,
            );
            &&& extends(old(scripts).log(), final(scripts).log(), run.acts)
            &&& ends_with(r, config_path@, run.end)
        }),
{
    if let Some(s) = value.as_str() {
        if contains(s, "${{") {
            let ctx = service_context("", sys_env);
            return match evaluate_expression_string(s, scripts, &ctx, config_path, "env_file") {
                Ok(text) => Ok(Yaml::String(text)),
                Err(e) => Err(e),
            };
        }
    }
    Ok(value.copy())
}

/// Computes the fields of a service that cannot wait until it starts.
fn process_service_fields<S: Scripts>(
    fields: &mut Vec<(Yaml, Yaml)>,
    scripts: &mut S,
    config_path: &str,
    name: &str,
    sys_env: &NameMap<String>,
) -> (r: Result<(), DaemonError>)
    ensures
        ({
            let run = service_fields_run(
                entry_trees(old(fields)@),
                name@,
                config_path@,
                seen_vars(*sys_env),
                final(scripts).log(),
                old(scripts).log().len() as int,
            );
            &&& extends(old(scripts).log(), final(scripts).log(), run.acts)
            &&& match r {
                Ok(_) => run.end == Ok::<Seq<(Tree, Tree)>, Fault>(entry_trees(final(fields)@)),
                Err(e) => run.end matches Err(f) && reports(e, config_path@, f),
            }
        }),
{
    let ghost start = scripts.log();
    let ghost from = start.len() as int;
    let ghost vars = seen_vars(*sys_env);
    let ghost all = entry_trees(fields@);
    proof {
        lemma_key_index(all, Tree::Text("env_file"@));
    }
    if let Some(i) = find_key(fields, "env_file") {
        assert(all[i as int].1 == fields@[i as int].1@);
        match process_file_path(&fields[i].1, scripts, config_path, sys_env) {
            Ok(v) => {
                put_at(fields, i, v);
            },
            Err(e) => {
                return Err(e);
            },
        }
    }
    let ghost middle = scripts.log();
    let ghost first = file_field_run(all, vars, middle, from);
    let ghost next = entry_trees(fields@);
    assert(first.end == Ok::<Seq<(Tree, Tree)>, Fault>(next));
    assert(extends(start, middle, first.acts));
    proof {
        lemma_key_index(next, Tree::Text("depends_on"@));
    }
    if let Some(i) = find_key(fields, "depends_on") {
        assert(next[i as int].1 == fields@[i as int].1@);
        let r = process_depends(&fields[i].1, scripts, config_path, name, sys_env);
        proof {
            let now = scripts.log();
            let run = depends_run(
                next[i as int].1,
                name@,
                config_path@,
                vars,
                now,
                middle.len() as int,
            );
            lemma_extends_agree(middle, now, run.acts);
            lemma_file_field_run(all, vars, middle, now, from);
            lemma_extends_twice(start, middle, now, first.acts, run.acts);
        }
        match r {
            Ok(v) => {
                put_at(fields, i, v);
            },
            Err(e) => {
                return Err(e);
            },
        }
    } else {
        assert(first.acts + Seq::<Act>::empty() =~= first.acts);
    }
    Ok(())
}

proof fn lemma_file_field_run(
    fields: Seq<(Tree, Tree)>,
    vars: Seq<(Seq<char>, Sight)>,
    a: Log,
    b: Log,
    from: int,
)
    requires
        0 <= from,
        agree(a, b, from + file_field_run(fields, vars, a, from).acts.len()),
    ensures
        file_field_run(fields, vars, a, from) == file_field_run(fields, vars, b, from),
{
    if let Some(t) = lookup(fields, Tree::Text("env_file"@)) {
        if let Tree::Text(s) = untagged(t) {
            if occurs(s, "${{"@) {
                assert(a[from] == b[from]);
                if a[from].1 is Value {
                    lemma_text_run(pieces_of(s), "env_file"@, a, b, from + 1);
                }
            }
        }
    }
}

/// Computes what cannot wait until a service starts: the path of its environment file, and the
/// settings of its dependencies.
pub fn prepare_service<S: Scripts>(
    value: &Yaml,
    scripts: &mut S,
    config_path: &str,
    name: &str,
    sys_env: &NameMap<String>,
) -> (r: Result<Yaml, DaemonError>)
    ensures
        ({
            let run = service_run(
                value@,
                name@,
                config_path@,
                seen_vars(*sys_env),
                final(scripts).log(),
                old(scripts).log().len() as int,
            );
            &&& extends(old(scripts).log(), final(scripts).log(), run.acts)
            &&& ends_with(r, config_path@, run.end)
        }),
{
    broadcast use lemma_tree_parts;

    reveal(service_run);
    let mut inner = value.untag().copy();
    let mut changed = false;
    if let Yaml::Mapping(fields) = &mut inner {
        process_service_fields(fields, scripts, config_path, name, sys_env)?;
        changed = true;
    }
    if changed {
        Ok(retag(value, inner))
    } else {
        Ok(value.copy())
    }
}

/// Preparing a service reads only the answers it asks for.
pub proof fn lemma_service_run(
    t: Tree,
    name: Seq<char>,
    path: Seq<char>,
    vars: Seq<(Seq<char>, Sight)>,
    a: Log,
    b: Log,
    from: int,
)
    requires
        0 <= from,
        agree(a, b, from + service_run(t, name, path, vars, a, from).acts.len()),
    ensures
        service_run(t, name, path, vars, a, from) == service_run(t, name, path, vars, b, from),
{
    reveal(service_run);
    if let Tree::Mapping(fields) = untagged(t) {
        lemma_file_field_run(fields, vars, a, b, from);
        let first = file_field_run(fields, vars, a, from);
        if let Ok(middle) = first.end {
            if let Some(d) = lookup(middle, Tree::Text("depends_on"@)) {
                let at = from + first.acts.len();
                let place = depends_place(name);
                let build = service_act(name, vars);
                match d {
                    Tree::Mapping(entries) => {
                        lemma_dep_entries_run(entries, entries.len(), place, build, a, b, at);
                    },
                    Tree::Sequence(items) => {
                        lemma_dep_items_run(items, items.len(), place, build, a, b, at);
                    },
                    _ => {},
                }
            }
        }
    }
}

} // verus!
