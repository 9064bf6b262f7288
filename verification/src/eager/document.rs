//! Reading a configuration from its file.
use vstd::prelude::*;
use vstd::string::*;
use crate::config::evaluate::{extends, reports, Run};
use crate::config::reading::{read_as, reads};
use crate::config::resolve::Log;
use crate::eager::config::{
    env_files_expanded, environment_resolved, validated, KeplerConfig, ServiceConfig,
};
use crate::eager::expand::load_env_file;
use crate::eager::load::{
    code_in, evaluator_fails, file_views, imports_of, inline_code, load_evaluator, lua_scripts_run,
    lua_sources, process_lua_scripts,
};
use crate::eager::lua::Vars;
use crate::env::texts;
use crate::errors::{DaemonError, ParseFailure};
use crate::lua_eval::{
    connected, defined_all, file_vars, genuine, seen_vars, text_in, FileReader, Scripts, WithFiles,
};
use crate::name_map::NameMap;
use crate::text::{contains, occurs, text_view, views};
use crate::value::{Tree, Yaml};
use crate::yaml::{failure_view, parse_tree, yaml_tree};

verus! {

/// Whether decoding a tree may lead to `out`.
pub open spec fn decoded<D: Fn(&Yaml) -> Result<KeplerConfig, ParseFailure>>(
    decode: D,
    t: Tree,
    path: Seq<char>,
    out: Result<KeplerConfig, DaemonError>,
) -> bool {
    ||| out matches Ok(c) && read_as(decode, t, Ok::<KeplerConfig, ParseFailure>(c))
    ||| out matches Err(DaemonError::ConfigParse { path: p, failure }) && p@ == path && read_as(
        decode,
        t,
        Err::<KeplerConfig, ParseFailure>(failure),
    )
}

/// Whether reading a document may lead to `out`, with the record `after` of what scripts were
/// asked.
pub open spec fn document_read<D: Fn(&Yaml) -> Result<KeplerConfig, ParseFailure>>(
    t: Tree,
    dir: Seq<char>,
    path: Seq<char>,
    sys: Vars,
    decode: D,
    before: Log,
    after: Log,
    out: Result<KeplerConfig, DaemonError>,
) -> bool {
    let run = lua_scripts_run(t, dir, sys, after, before.len() as int);
    &&& extends(before, after, run.acts)
    &&& match run.end {
        Ok(done) => decoded(decode, done, path, out),
        Err(f) => out matches Err(e) && reports(e, path, f),
    }
}

/// Decodes a configuration.
fn decode_tree<D: Fn(&Yaml) -> Result<KeplerConfig, ParseFailure>>(
    value: &Yaml,
    config_path: &str,
    decode: &D,
) -> (r: Result<KeplerConfig, DaemonError>)
    requires
        forall|y: Yaml| #[trigger] call_requires(*decode, (&y,)),
    ensures
        decoded(*decode, value@, config_path@, r),
{
    let d = decode(value);
    assert(reads(*decode, *value, d));
    match d {
        Ok(config) => {
            assert(read_as(*decode, value@, Ok::<KeplerConfig, ParseFailure>(config)));
            Ok(config)
        },
        Err(failure) => {
            assert(read_as(*decode, value@, Err::<KeplerConfig, ParseFailure>(failure)));
            Err(DaemonError::ConfigParse { path: config_path.to_owned(), failure })
        },
    }
}

/// Runs the code of a configuration, and decodes the configuration.
pub fn read_document<S: Scripts, D: Fn(&Yaml) -> Result<KeplerConfig, ParseFailure>>(
    root: &Yaml,
    scripts: &mut S,
    sys_env: &NameMap<String>,
    config_dir: &str,
    config_path: &str,
    decode: &D,
) -> (r: Result<KeplerConfig, DaemonError>)
    requires
        forall|y: Yaml| #[trigger] call_requires(*decode, (&y,)),
    ensures
        document_read(
            root@,
            config_dir@,
            config_path@,
            seen_vars(*sys_env),
            *decode,
            old(scripts).log(),
            final(scripts).log(),
            r,
        ),
{
    let value = process_lua_scripts(root, scripts, sys_env, config_dir, config_path)?;
    decode_tree(&value, config_path, decode)
}

/// Whether these may be the variables of an environment file: none if it cannot be read.
pub open spec fn vars_of_file<F: Fn(&str) -> Result<Vec<u8>, String>>(
    reader: FileReader<F>,
    file: Seq<char>,
    vars: NameMap<String>,
) -> bool {
    exists|path: &str, got: Result<Vec<u8>, String>| #[trigger]
        reader.gives(path, got) && path@ == file && match got {
            Ok(data) => file_vars(data@, vars),
            Err(_) => texts(vars@) == Map::<Seq<char>, Seq<char>>::empty(),
        }
}

/// Whether `files` holds the variables of the environment file of each of the first `n` services
/// that has one, and no others.
pub open spec fn files_read<F: Fn(&str) -> Result<Vec<u8>, String>>(
    reader: FileReader<F>,
    services: NameMap<ServiceConfig>,
    n: int,
    files: NameMap<NameMap<String>>,
) -> bool {
    &&& forall|i: int|
        0 <= i < n ==> match (#[trigger] services.values()[i]).env_file {
            Some(file) => files@.contains_key(services.keys()[i]) && vars_of_file(
                reader,
                file@,
                files@[services.keys()[i]],
            ),
            None => !files@.contains_key(services.keys()[i]),
        }
    &&& forall|name: Seq<char>| #[trigger]
        files@.contains_key(name) ==> exists|i: int| 0 <= i < n && services.keys()[i] == name
}

/// The variables of the environment files of the services that have one.
fn read_env_files<F: Fn(&str) -> Result<Vec<u8>, String>>(
    reader: &FileReader<F>,
    services: &NameMap<ServiceConfig>,
) -> (r: NameMap<NameMap<String>>)
    ensures
        files_read(*reader, *services, services.keys().len() as int, r),
{
    let mut files: NameMap<NameMap<String>> = NameMap::new();
    let n: usize = services.len();
    let mut i: usize = 0;
    while i < n
        invariant
            i <= n,
            n == services.keys().len(),
            services.well_formed(),
            files_read(*reader, *services, i as int, files),
        decreases n - i,
    {
        let ghost before = files;
        let name = services.key_at(i);
        if let Some(file) = &services.value_at(i).env_file {
            let path = file.as_str();
            let got = reader.read(path);
            let vars = match &got {
                Ok(data) => load_env_file(Some(data)),
                Err(_) => load_env_file(None),
            };
            assert(vars_of_file(*reader, file@, vars)) by {
                assert(reader.gives(path, got));
                if let Ok(data) = got {
                    assert(file_vars(data@, vars));
                }
            }
            files.insert(name.clone(), vars);
        }
        assert forall|other: Seq<char>| #[trigger] files@.contains_key(other) implies exists|j: int|
            0 <= j < i + 1 && services.keys()[j] == other by {
            if before@.contains_key(other) {
                let j = choose|j: int| 0 <= j < i && services.keys()[j] == other;
                assert(0 <= j < i + 1 && services.keys()[j] == other);
            } else {
                assert(services.keys()[i as int] == other);
            }
        }
        i += 1;
    }
    files
}

/// Whether filling in and checking a decoded configuration may lead to `out`: the paths of the
/// environment files are filled in, the files are read, the rest is filled in, and the whole is
/// checked.
pub open spec fn finished<F: Fn(&str) -> Result<Vec<u8>, String>>(
    reader: FileReader<F>,
    config: KeplerConfig,
    sys: Map<Seq<char>, Seq<char>>,
    path: Seq<char>,
    out: Result<KeplerConfig, DaemonError>,
) -> bool {
    exists|middle: KeplerConfig, files: NameMap<NameMap<String>>, done: KeplerConfig|
        {
            &&& env_files_expanded(config, middle, sys)
            &&& #[trigger] files_read(
                reader,
                middle.services,
                middle.services.keys().len() as int,
                files,
            )
            &&& #[trigger] environment_resolved(middle, done, sys, files)
            &&& validated(done, path, out)
        }
}

/// Fills in and checks a decoded configuration.
fn finish<F: Fn(&str) -> Result<Vec<u8>, String>>(
    reader: &FileReader<F>,
    config: KeplerConfig,
    sys_env: &NameMap<String>,
    path: &str,
) -> (r: Result<KeplerConfig, DaemonError>)
    ensures
        finished(*reader, config, texts(sys_env@), path@, r),
{
    let mut config = config;
    config.expand_env_files(sys_env);
    let ghost middle = config;
    let files = read_env_files(reader, &config.services);
    config.resolve_environment(sys_env, &files);
    assert(files_read(*reader, middle.services, middle.services.keys().len() as int, files));
    assert(environment_resolved(middle, config, texts(sys_env@), files));
    config.validate(path)?;
    Ok(config)
}

/// Whether the texts of the files of code are what reading them may give.
pub open spec fn code_read<F: Fn(&str) -> Result<Vec<u8>, String>>(
    reader: FileReader<F>,
    paths: Seq<Seq<char>>,
    files: Seq<(String, Result<String, String>)>,
) -> bool {
    &&& files.len() == paths.len()
    &&& forall|i: int|
        0 <= i < files.len() ==> (#[trigger] files[i]).0@ == paths[i] && text_of_file(
            reader,
            paths[i],
            files[i].1,
        )
}

/// Whether this may be the text of a file.
pub open spec fn text_of_file<F: Fn(&str) -> Result<Vec<u8>, String>>(
    reader: FileReader<F>,
    file: Seq<char>,
    text: Result<String, String>,
) -> bool {
    exists|path: &str, got: Result<Vec<u8>, String>| #[trigger]
        reader.gives(path, got) && path@ == file && text_in(got, text)
}

/// Reads the files of code that a configuration names.
fn read_code<F: Fn(&str) -> Result<Vec<u8>, String>>(
    reader: &FileReader<F>,
    paths: Vec<String>,
) -> (r: Vec<(String, Result<String, String>)>)
    ensures
        code_read(*reader, views(paths@), r@),
{
    let mut files: Vec<(String, Result<String, String>)> = Vec::new();
    let mut i: usize = 0;
    while i < paths.len()
        invariant
            i <= paths@.len(),
            code_read(*reader, views(paths@).take(i as int), files@),
        decreases paths@.len() - i,
    {
        let path = paths[i].as_str();
        let text = reader.read_string(path);
        assert(text_of_file(*reader, path@, text));
        files.push((paths[i].clone(), text));
        i += 1;
    }
    assert(views(paths@).take(i as int) == views(paths@));
    files
}

/// Whether a decoded configuration may lead to `out`.
pub open spec fn load_ends<F: Fn(&str) -> Result<Vec<u8>, String>>(
    reader: FileReader<F>,
    middle: Result<KeplerConfig, DaemonError>,
    sys: Map<Seq<char>, Seq<char>>,
    path: Seq<char>,
    out: Result<KeplerConfig, DaemonError>,
) -> bool {
    match middle {
        Ok(config) => finished(reader, config, sys, path, out),
        Err(_) => out == middle,
    }
}

/// Whether reading a configuration of this tree may lead to `r`, where its file mentions code: the
/// files of code are read, an interpreter is made and runs the code of the configuration and of
/// those files, and is then asked what reading the tree asks. The answers are those of this
/// interpreter, and of the reader where files are asked for.
pub open spec fn tree_loads<
    F: Fn(&str) -> Result<Vec<u8>, String>,
    D: Fn(&Yaml) -> Result<KeplerConfig, ParseFailure>,
>(
    root: Tree,
    dir: Seq<char>,
    path: Seq<char>,
    sys_env: NameMap<String>,
    reader: FileReader<F>,
    decode: D,
    r: Result<KeplerConfig, DaemonError>,
) -> bool {
    exists|files: Seq<(String, Result<String, String>)>| #[trigger]
        code_read(reader, imports_of(root, dir), files) && {
            ||| r matches Err(e) && evaluator_fails(
                inline_code(root),
                file_views(files),
                path,
                e,
            )
            ||| (forall|i: int| 0 <= i < files.len() ==> (#[trigger] files[i]).1 is Ok)
                && exists|after: Log, middle: Result<KeplerConfig, DaemonError>|
                {
                    &&& genuine(after)
                    &&& #[trigger] document_read(
                        root,
                        dir,
                        path,
                        seen_vars(sys_env),
                        decode,
                        defined_all(
                            code_in(inline_code(root), file_views(files), files.len()),
                        ).push(connected(reader)),
                        after,
                        middle,
                    )
                    &&& load_ends(reader, middle, texts(sys_env@), path, r)
                }
        }
}

/// Whether decoding a text may lead to `out`.
pub open spec fn text_decoded<T: Fn(&str) -> Result<KeplerConfig, ParseFailure>>(
    decode_text: T,
    contents: Seq<char>,
    path: Seq<char>,
    out: Result<KeplerConfig, DaemonError>,
) -> bool {
    exists|text: &str, got: Result<KeplerConfig, ParseFailure>| #[trigger]
        call_ensures(decode_text, (text,), got) && text@ == contents && match got {
            Ok(config) => out == Ok::<KeplerConfig, DaemonError>(config),
            Err(failure) => out matches Err(DaemonError::ConfigParse { path: p, failure: f })
                && p@ == path && f == failure,
        }
}

/// Whether reading a configuration of these contents may lead to `r`. Contents that mention code
/// are parsed, and lead to what their tree leads to, or to why they have none; others are decoded
/// as they are.
pub open spec fn contents_load<
    F: Fn(&str) -> Result<Vec<u8>, String>,
    D: Fn(&Yaml) -> Result<KeplerConfig, ParseFailure>,
    T: Fn(&str) -> Result<KeplerConfig, ParseFailure>,
>(
    contents: Seq<char>,
    dir: Seq<char>,
    path: Seq<char>,
    sys_env: NameMap<String>,
    reader: FileReader<F>,
    decode: D,
    decode_text: T,
    r: Result<KeplerConfig, DaemonError>,
) -> bool {
    if occurs(contents, "!lua"@) {
        match yaml_tree(contents) {
            Ok(root) => tree_loads(root, dir, path, sys_env, reader, decode, r),
            Err(why) => r matches Err(DaemonError::ConfigParse { path: p, failure }) && p@ == path
                && failure_view(failure) == why,
        }
    } else {
        exists|middle: Result<KeplerConfig, DaemonError>| #[trigger]
            text_decoded(decode_text, contents, path, middle) && load_ends(
                reader,
                middle,
                texts(sys_env@),
                path,
                r,
            )
    }
}

impl KeplerConfig {
    /// Reads a configuration, given its tree, where its file mentions code. The code is run:
    /// first that of the block `lua` and of the files that the configuration names, and then that
    /// of its values. The decoded configuration is filled in and checked.
    pub fn load_tree<
        F: Fn(&str) -> Result<Vec<u8>, String>,
        D: Fn(&Yaml) -> Result<KeplerConfig, ParseFailure>,
    >(
        path: &str,
        config_dir: &str,
        root: &Yaml,
        sys_env: &NameMap<String>,
        reader: &FileReader<F>,
        decode: &D,
    ) -> (r: Result<Self, DaemonError>)
        requires
            forall|y: Yaml| #[trigger] call_requires(*decode, (&y,)),
        ensures
            tree_loads(root@, config_dir@, path@, *sys_env, *reader, *decode, r),
    {
        let (code, imports) = lua_sources(root, config_dir);
        let files = read_code(reader, imports);
        let text = match &code {
            Some(c) => Some(c.as_str()),
            None => None,
        };
        assert(text_view(text) == inline_code(root@));
        assert(code_read(*reader, imports_of(root@, config_dir@), files@));
        let evaluator = match load_evaluator(text, &files, path) {
            Ok(e) => e,
            Err(e) => {
                return Err(e);
            },
        };
        let mut scripts = WithFiles::new(evaluator, reader);
        let middle = read_document(root, &mut scripts, sys_env, config_dir, path, decode);
        scripts.vouch();
        match middle {
            Ok(config) => finish(reader, config, sys_env, path),
            Err(e) => Err(e),
        }
    }

    /// Reads a configuration, given the contents of its file. `decode` decodes a tree, and
    /// `decode_text` contents that mention no code.
    pub fn load<
        F: Fn(&str) -> Result<Vec<u8>, String>,
        D: Fn(&Yaml) -> Result<KeplerConfig, ParseFailure>,
        T: Fn(&str) -> Result<KeplerConfig, ParseFailure>,
    >(
        path: &str,
        config_dir: &str,
        contents: &str,
        sys_env: &NameMap<String>,
        reader: &FileReader<F>,
        decode: &D,
        decode_text: &T,
    ) -> (r: Result<Self, DaemonError>)
        requires
            forall|y: Yaml| #[trigger] call_requires(*decode, (&y,)),
            forall|text: &str| #[trigger] call_requires(*decode_text, (text,)),
        ensures
            contents_load(
                contents@,
                config_dir@,
                path@,
                *sys_env,
                *reader,
                *decode,
                *decode_text,
                r,
            ),
    {
        if contains(contents, "!lua") {
            return match parse_tree(contents) {
                Ok(root) => KeplerConfig::load_tree(
                    path,
                    config_dir,
                    &root,
                    sys_env,
                    reader,
                    decode,
                ),
                Err(failure) => Err(DaemonError::ConfigParse { path: path.to_owned(), failure }),
            };
        }
        let got = decode_text(contents);
        let ghost seen = got;
        let middle = match got {
            Ok(config) => Ok(config),
            Err(failure) => Err(DaemonError::ConfigParse { path: path.to_owned(), failure }),
        };
        proof {
            assert(call_ensures(*decode_text, (contents,), seen));
            assert(text_decoded(*decode_text, contents@, path@, middle));
        }
        match middle {
            Ok(config) => finish(reader, config, sys_env, path),
            Err(e) => Err(e),
        }
    }
}

} // verus!
