//! Settings that are written in more than one way.
use vstd::prelude::*;
use vstd::string::*;
use crate::config::config_value::ConfigValue;
use crate::config::document::{retag, retagged, take_key, taken};
use crate::config::environment::{text_field, text_fields, EnvironmentEntries, TextField};
use crate::config::expr::{classified, DynamicExpr};
use crate::config::hooks::{HookCommand, HookCommon, HookList};
use crate::config::read::{
    call, called, item_in, mismatch, opt_text_in, read_item, read_opt_text, read_text,
    read_text_list, text_in, text_list_in, wrong_kind,
};
use crate::config::restart::{read_policy, RestartConfig, RestartPolicy};
use crate::config::service::{AutostartConfig, ServicePermissions};
use crate::text::{concat5, occurs, views};
use crate::value::{
    entry_trees, get_key, lemma_tree_parts, lookup, trees, untagged, Tree, Yaml,
};

verus! {

/// That a tree is not of an expected kind. Tags count.
pub open spec fn unexpected(t: Tree, expected: Seq<char>) -> Seq<char> {
    "invalid type: "@ + called(t) + ", expected "@ + expected
}

/// That a value is not of an expected kind.
fn refuse(v: &Yaml, expected: &str) -> (r: String)
    ensures
        r@ == unexpected(v@, expected@),
{
    let text = concat5("invalid type: ", call(v).as_str(), ", expected ", expected, "");
    proof {
        reveal_strlit("");
        assert(text@ =~= unexpected(v@, expected@));
    }
    text
}

/// Whether a field was read from a tree: computed if the tree is written as code, and else known,
/// as `decode` reads it.
pub open spec fn field_read<T, F: Fn(&Yaml) -> Result<T, String>>(
    v: &Yaml,
    decode: F,
    r: Result<ConfigValue<T>, String>,
) -> bool {
    match r {
        Ok(ConfigValue::Dynamic(e)) => classified(v@) == Some(e@),
        Ok(ConfigValue::Static(t)) => classified(v@) is None && call_ensures(decode, (v,), Ok(t)),
        Err(m) => classified(v@) is None && call_ensures(decode, (v,), Err(m)),
    }
}

impl<T> ConfigValue<T> {
    /// A field that is computed later if it is written as code, and else read as it stands.
    pub fn from_value<F: Fn(&Yaml) -> Result<T, String>>(value: &Yaml, decode: &F) -> (r: Result<
        ConfigValue<T>,
        String,
    >)
        requires
            call_requires(*decode, (value,)),
        ensures
            field_read(value, *decode, r),
    {
        match DynamicExpr::classify(value) {
            Some(e) => Ok(ConfigValue::Dynamic(Box::new(e))),
            None => match decode(value) {
                Ok(t) => Ok(ConfigValue::Static(t)),
                Err(m) => Err(m),
            },
        }
    }
}

/// What restarts a service by its extended form.
pub type Extended = (RestartPolicy, ConfigValue<Vec<ConfigValue<String>>>);

impl RestartConfig {
    /// When a service is started again: a text is a policy, a mapping is the extended form, which
    /// `decode` reads.
    pub fn from_value<F: Fn(&Yaml) -> Result<Extended, String>>(value: &Yaml, decode: &F) -> (r:
        Result<RestartConfig, String>)
        requires
            call_requires(*decode, (value,)),
        ensures
            match (value@, r) {
                (Tree::Text(s), Ok(RestartConfig::Simple(p))) => read_policy(s) == Ok::<
                    u8,
                    Seq<char>,
                >(p.flags()),
                (Tree::Text(s), Err(m)) => read_policy(s) == Err::<u8, Seq<char>>(m@),
                (Tree::Mapping(_), Ok(RestartConfig::Extended { policy, watch })) => call_ensures(
                    *decode,
                    (value,),
                    Ok((policy, watch)),
                ),
                (Tree::Mapping(_), Err(m)) => call_ensures(*decode, (value,), Err(m)),
                (Tree::Text(_), Ok(_)) | (Tree::Mapping(_), Ok(_)) | (_, Ok(_)) => false,
                (_, Err(m)) => m@ == "expected string or mapping for restart config"@,
            },
    {
        broadcast use lemma_tree_parts;

        match value {
            Yaml::String(s) => match RestartPolicy::parse(s.as_str()) {
                Ok(p) => Ok(RestartConfig::Simple(p)),
                Err(m) => Err(m),
            },
            Yaml::Mapping(_) => match decode(value) {
                Ok((policy, watch)) => Ok(RestartConfig::Extended { policy, watch }),
                Err(m) => Err(m),
            },
            _ => Err("expected string or mapping for restart config".to_owned()),
        }
    }
}

impl AutostartConfig {
    /// Whether services start with the daemon: a truth value, null for no, or a mapping with an
    /// environment, which `decode` reads.
    pub fn from_value<F: Fn(&Yaml) -> Result<ConfigValue<EnvironmentEntries>, String>>(
        value: &Yaml,
        decode: &F,
    ) -> (r: Result<AutostartConfig, String>)
        requires
            call_requires(*decode, (value,)),
        ensures
            match value@ {
                Tree::Bool(true) => r matches Ok(AutostartConfig::Enabled),
                Tree::Bool(false) | Tree::Null => r matches Ok(AutostartConfig::Disabled),
                Tree::Mapping(_) => match r {
                    Ok(AutostartConfig::WithEnvironment { environment }) => call_ensures(
                        *decode,
                        (value,),
                        Ok(environment),
                    ),
                    Err(m) => call_ensures(*decode, (value,), Err(m)),
                    _ => false,
                },
                t => r matches Err(m) && m@ == unexpected(
                    t,
                    "a boolean or a mapping with 'environment' key"@,
                ),
            },
    {
        broadcast use lemma_tree_parts;

        match value {
            Yaml::Bool(b) => if *b {
                Ok(AutostartConfig::Enabled)
            } else {
                Ok(AutostartConfig::Disabled)
            },
            Yaml::Null => Ok(AutostartConfig::Disabled),
            Yaml::Mapping(_) => match decode(value) {
                Ok(environment) => Ok(AutostartConfig::WithEnvironment { environment }),
                Err(m) => Err(m),
            },
            _ => Err(refuse(value, "a boolean or a mapping with 'environment' key")),
        }
    }
}

/// Whether the settings that all hooks have were read from a tree.
pub open spec fn common_read<F: Fn(&Yaml) -> Result<HookCommon, String>>(
    t: Tree,
    decode: F,
    r: Result<HookCommon, String>,
) -> bool {
    exists|rest: Yaml| rest@ == t && #[trigger] call_ensures(decode, (&rest,), r)
}

/// Whether a hook was read from a tree. A mapping with the key `run` is a script, and else one with
/// the key `command` is a command; the other keys are the settings that all hooks have.
pub open spec fn hook_read<F: Fn(&Yaml) -> Result<HookCommon, String>>(
    t: Tree,
    decode: F,
    r: Result<HookCommand, String>,
) -> bool {
    match untagged(t) {
        Tree::Mapping(entries) => match lookup(entries, Tree::Text("run"@)) {
            Some(v) => {
                let rest = retagged(t, Tree::Mapping(taken(entries, "run"@)));
                match (item_in(v), r) {
                    (Ok(f), Ok(HookCommand::Script { run, common })) => text_field(run) == f
                        && common_read(rest, decode, Ok(common)),
                    (Ok(_), Err(m)) => common_read(rest, decode, Err(m)),
                    (Err(e), Err(m)) => m@ == e,
                    _ => false,
                }
            },
            None => match lookup(entries, Tree::Text("command"@)) {
                Some(v) => {
                    let rest = retagged(t, Tree::Mapping(taken(entries, "command"@)));
                    match r {
                        Ok(HookCommand::Command { command, common }) => words_read(v, Ok(command))
                            && common_read(rest, decode, Ok(common)),
                        Ok(_) => false,
                        Err(m) => if words_fail(v) {
                            words_read(v, Err(m))
                        } else {
                            common_read(rest, decode, Err(m))
                        },
                    }
                },
                None => r matches Err(m) && m@
                    == "hook command must have either 'run' or 'command' key"@,
            },
        },
        _ => r matches Err(m) && m@ == "expected a mapping for hook command"@,
    }
}

/// Whether a command was read from a tree: computed if it is written as code, and else a list of
/// texts.
pub open spec fn words_read(
    t: Tree,
    r: Result<ConfigValue<Vec<ConfigValue<String>>>, String>,
) -> bool {
    match r {
        Ok(ConfigValue::Dynamic(e)) => classified(t) == Some(e@),
        Ok(ConfigValue::Static(list)) => classified(t) is None && text_list_in(t) == Ok::<
            Seq<TextField>,
            Seq<char>,
        >(text_fields(list@)),
        Err(m) => words_fail(t) && text_list_in(t) == Err::<Seq<TextField>, Seq<char>>(m@),
    }
}

/// Whether a tree is no command.
pub open spec fn words_fail(t: Tree) -> bool {
    classified(t) is None && text_list_in(t) is Err
}

impl HookCommand {
    /// A hook from a value; `decode` reads the settings that all hooks have.
    pub fn from_value<F: Fn(&Yaml) -> Result<HookCommon, String>>(value: &Yaml, decode: &F) -> (r:
        Result<HookCommand, String>)
        requires
            forall|v: &Yaml| call_requires(*decode, (v,)),
        ensures
            hook_read(value@, *decode, r),
    {
        broadcast use lemma_tree_parts;

        let mut entries = match value.untag().copy() {
            Yaml::Mapping(entries) => entries,
            _ => {
                return Err("expected a mapping for hook command".to_owned());
            },
        };
        match take_key(&mut entries, "run") {
            Some(v) => {
                let run = match read_item(&v) {
                    Ok(f) => f,
                    Err(m) => {
                        return Err(m);
                    },
                };
                let rest = retag(value, Yaml::Mapping(entries));
                match decode(&rest) {
                    Ok(common) => Ok(HookCommand::Script { run, common }),
                    Err(m) => Err(m),
                }
            },
            None => match take_key(&mut entries, "command") {
                Some(v) => {
                    let command = match ConfigValue::from_value(&v, &read_text_list) {
                        Ok(c) => c,
                        Err(m) => {
                            return Err(m);
                        },
                    };
                    let rest = retag(value, Yaml::Mapping(entries));
                    match decode(&rest) {
                        Ok(common) => Ok(HookCommand::Command { command, common }),
                        Err(m) => Err(m),
                    }
                },
                None => Err("hook command must have either 'run' or 'command' key".to_owned()),
            },
        }
    }
}

/// Whether the items of a list were read as hooks.
pub open spec fn hooks_read<F: Fn(&Yaml) -> Result<HookCommon, String>>(
    items: Seq<Tree>,
    decode: F,
    list: Seq<HookCommand>,
) -> bool {
    &&& list.len() == items.len()
    &&& forall|i: int|
        0 <= i < items.len() ==> hook_read(items[i], decode, Ok(#[trigger] list[i]))
}

/// Whether some item of a list was not read as a hook; the first one tells why.
pub open spec fn hooks_fail<F: Fn(&Yaml) -> Result<HookCommon, String>>(
    items: Seq<Tree>,
    decode: F,
    m: String,
) -> bool {
    exists|i: int| first_bad(items, decode, m, i)
}

/// Whether a tree was read as a hook.
pub open spec fn is_hook<F: Fn(&Yaml) -> Result<HookCommon, String>>(t: Tree, decode: F) -> bool {
    exists|h: HookCommand| hook_read(t, decode, Ok(h))
}

/// Whether item `i` was the first that was not read as a hook.
pub open spec fn first_bad<F: Fn(&Yaml) -> Result<HookCommon, String>>(
    items: Seq<Tree>,
    decode: F,
    m: String,
    i: int,
) -> bool {
    &&& 0 <= i < items.len()
    &&& hook_read(items[i], decode, Err(m))
    &&& forall|j: int| 0 <= j < i ==> is_hook(#[trigger] items[j], decode)
}

impl HookList {
    /// Hooks from a value: one hook, a list of hooks, or null for none.
    pub fn from_value<F: Fn(&Yaml) -> Result<HookCommon, String>>(value: &Yaml, decode: &F) -> (r:
        Result<HookList, String>)
        requires
            forall|v: &Yaml| call_requires(*decode, (v,)),
        ensures
            match value@ {
                Tree::Null => r matches Ok(l) && l.0@.len() == 0,
                Tree::Mapping(_) => match r {
                    Ok(l) => l.0@.len() == 1 && hook_read(value@, *decode, Ok(l.0@[0])),
                    Err(m) => hook_read(value@, *decode, Err(m)),
                },
                Tree::Sequence(items) => match r {
                    Ok(l) => hooks_read(items, *decode, l.0@),
                    Err(m) => hooks_fail(items, *decode, m),
                },
                t => r matches Err(m) && m@ == unexpected(
                    t,
                    "a hook command object, an array of hook commands, or null"@,
                ),
            },
    {
        broadcast use lemma_tree_parts;

        match value {
            Yaml::Null => Ok(HookList(Vec::new())),
            Yaml::Mapping(_) => match HookCommand::from_value(value, decode) {
                Ok(h) => {
                    let mut list: Vec<HookCommand> = Vec::new();
                    list.push(h);
                    Ok(HookList(list))
                },
                Err(m) => Err(m),
            },
            Yaml::Sequence(items) => {
                let ghost all = trees(items@);
                let mut list: Vec<HookCommand> = Vec::new();
                let mut i: usize = 0;
                while i < items.len()
                    invariant
                        i <= items@.len(),
                        all == trees(items@),
                        value@ == Tree::Sequence(all),
                        list@.len() == i,
                        forall|v: &Yaml| call_requires(*decode, (v,)),
                        forall|j: int|
                            0 <= j < i ==> hook_read(all[j], *decode, Ok(#[trigger] list@[j])),
                    decreases items@.len() - i,
                {
                    assert(all[i as int] == items@[i as int]@);
                    match HookCommand::from_value(&items[i], decode) {
                        Ok(h) => {
                            list.push(h);
                        },
                        Err(m) => {
                            proof {
                                assert forall|j: int| 0 <= j < i implies is_hook(
                                    #[trigger] all[j],
                                    *decode,
                                ) by {
                                    assert(hook_read(all[j], *decode, Ok(list@[j])));
                                }
                                assert(first_bad(all, *decode, m, i as int));
                                assert(hooks_fail(all, *decode, m));
                            }
                            return Err(m);
                        },
                    }
                    i += 1;
                }
                Ok(HookList(list))
            },
            _ => Err(
                refuse(value, "a hook command object, an array of hook commands, or null"),
            ),
        }
    }
}

/// The first `n` texts of a list; the first item that is none counts.
pub open spec fn plain_texts_in(items: Seq<Tree>, n: nat) -> Result<Seq<Seq<char>>, Seq<char>>
    decreases n,
{
    if n == 0 || n > items.len() {
        Ok(seq![])
    } else {
        match plain_texts_in(items, (n - 1) as nat) {
            Err(e) => Err(e),
            Ok(done) => match text_in(items[n - 1]) {
                Ok(s) => Ok(done.push(s)),
                Err(e) => Err(e),
            },
        }
    }
}

proof fn lemma_plain_texts_stop(items: Seq<Tree>, n: nat)
    requires
        n <= items.len(),
        plain_texts_in(items, n) is Err,
    ensures
        plain_texts_in(items, items.len()) == plain_texts_in(items, n),
    decreases items.len() - n,
{
    if n < items.len() {
        lemma_plain_texts_stop(items, n + 1);
    }
}

/// The texts of a list.
fn read_plain_texts(items: &Vec<Yaml>) -> (r: Result<Vec<String>, String>)
    ensures
        match r {
            Ok(list) => plain_texts_in(trees(items@), trees(items@).len()) == Ok::<
                Seq<Seq<char>>,
                Seq<char>,
            >(views(list@)),
            Err(e) => plain_texts_in(trees(items@), trees(items@).len()) == Err::<
                Seq<Seq<char>>,
                Seq<char>,
            >(e@),
        },
{
    let ghost all = trees(items@);
    let mut out: Vec<String> = Vec::new();
    let mut i: usize = 0;
    assert(views(out@) == Seq::<Seq<char>>::empty());
    while i < items.len()
        invariant
            i <= items@.len(),
            all == trees(items@),
            plain_texts_in(all, i as nat) == Ok::<Seq<Seq<char>>, Seq<char>>(views(out@)),
        decreases items@.len() - i,
    {
        let ghost before = views(out@);
        assert(all[i as int] == items@[i as int]@);
        match read_text(&items[i]) {
            Ok(s) => {
                out.push(s);
                assert(views(out@) == before.push(s@));
            },
            Err(e) => {
                proof {
                    lemma_plain_texts_stop(all, (i + 1) as nat);
                }
                return Err(e);
            },
        }
        i += 1;
    }
    Ok(out)
}

/// What permissions are called.
pub open spec fn permissions_kind() -> Seq<char> {
    "a list of rights or a mapping with 'allow' key"@
}

/// The rights and the level that a tree stands for: a list of rights, or a mapping with such a
/// list and perhaps a level.
pub open spec fn permissions_in(t: Tree) -> Result<(Seq<Seq<char>>, Option<Seq<char>>), Seq<char>> {
    match untagged(t) {
        Tree::Sequence(items) => match plain_texts_in(items, items.len()) {
            Ok(list) => Ok((list, None)),
            Err(e) => Err(e),
        },
        Tree::Mapping(entries) => match lookup(entries, Tree::Text("allow"@)) {
            None => Err("missing field `allow`"@),
            Some(a) => match untagged(a) {
                Tree::Sequence(items) => match plain_texts_in(items, items.len()) {
                    Err(e) => Err(e),
                    Ok(list) => match lookup(entries, Tree::Text("hardening"@)) {
                        None => Ok((list, None)),
                        Some(h) => match opt_text_in(h) {
                            Ok(level) => Ok((list, level)),
                            Err(e) => Err(e),
                        },
                    },
                },
                _ => Err(wrong_kind(a, "a sequence"@)),
            },
        },
        _ => Err(unexpected(untagged(t), permissions_kind())),
    }
}

impl ServicePermissions {
    /// The rights and the level.
    pub open spec fn parts(self) -> (Seq<Seq<char>>, Option<Seq<char>>) {
        (
            views(self.allow@),
            match self.hardening {
                Some(h) => Some(h@),
                None => None,
            },
        )
    }

    /// Permissions from a value.
    pub fn from_value(value: &Yaml) -> (r: Result<ServicePermissions, String>)
        ensures
            match r {
                Ok(p) => permissions_in(value@) == Ok::<
                    (Seq<Seq<char>>, Option<Seq<char>>),
                    Seq<char>,
                >(p.parts()),
                Err(e) => permissions_in(value@) == Err::<
                    (Seq<Seq<char>>, Option<Seq<char>>),
                    Seq<char>,
                >(e@),
            },
    {
        broadcast use lemma_tree_parts;

        match value.untag() {
            Yaml::Sequence(items) => match read_plain_texts(items) {
                Ok(allow) => Ok(ServicePermissions { allow, hardening: None }),
                Err(e) => Err(e),
            },
            Yaml::Mapping(entries) => match get_key(entries, "allow") {
                None => Err("missing field `allow`".to_owned()),
                Some(a) => match a.untag() {
                    Yaml::Sequence(items) => match read_plain_texts(items) {
                        Err(e) => Err(e),
                        Ok(allow) => match get_key(entries, "hardening") {
                            None => Ok(ServicePermissions { allow, hardening: None }),
                            Some(h) => match read_opt_text(h) {
                                Ok(hardening) => Ok(ServicePermissions { allow, hardening }),
                                Err(e) => Err(e),
                            },
                        },
                    },
                    _ => Err(mismatch("invalid type: ", a, "a sequence")),
                },
            },
            other => Err(refuse(other, "a list of rights or a mapping with 'allow' key")),
        }
    }

    /// The permissions in the settings of a service, under `permissions` or `security`, but not
    /// under both.
    pub fn of_service(value: &Yaml) -> (r: Result<Option<ServicePermissions>, String>)
        ensures
            ({
                let given = permissions_given(value@);
                match r {
                    Ok(None) => given == Ok::<Option<Tree>, Seq<char>>(None),
                    Ok(Some(p)) => given matches Ok(Some(t)) && permissions_in(t) == Ok::<
                        (Seq<Seq<char>>, Option<Seq<char>>),
                        Seq<char>,
                    >(p.parts()),
                    Err(e) => match given {
                        Ok(Some(t)) => permissions_in(t) == Err::<
                            (Seq<Seq<char>>, Option<Seq<char>>),
                            Seq<char>,
                        >(e@),
                        Ok(None) => false,
                        Err(m) => e@ == m,
                    },
                }
            }),
    {
        broadcast use lemma_tree_parts;

        let entries = match value.untag() {
            Yaml::Mapping(entries) => entries,
            _ => {
                return Ok(None);
            },
        };
        let given = match (get_key(entries, "permissions"), get_key(entries, "security")) {
            (Some(_), Some(_)) => {
                return Err("duplicate field `permissions`".to_owned());
            },
            (Some(v), None) => v,
            (None, Some(v)) => v,
            (None, None) => {
                return Ok(None);
            },
        };
        match given {
            Yaml::Null => Ok(None),
            _ => match ServicePermissions::from_value(given) {
                Ok(p) => Ok(Some(p)),
                Err(e) => Err(e),
            },
        }
    }
}

/// Where the settings of a service give permissions; null gives none.
pub open spec fn permissions_given(t: Tree) -> Result<Option<Tree>, Seq<char>> {
    match untagged(t) {
        Tree::Mapping(entries) => match (
            lookup(entries, Tree::Text("permissions"@)),
            lookup(entries, Tree::Text("security"@)),
        ) {
            (Some(_), Some(_)) => Err("duplicate field `permissions`"@),
            (Some(Tree::Null), None) | (None, Some(Tree::Null)) | (None, None) => Ok(None),
            (Some(v), None) => Ok(Some(v)),
            (None, Some(v)) => Ok(Some(v)),
        },
        _ => Ok(None),
    }
}

/// A text is a restart policy, as it is read on its own; anything but a text or a mapping is
/// refused.
pub proof fn law_text_is_a_policy<F: Fn(&Yaml) -> Result<Extended, String>>(
    v: Yaml,
    decode: F,
    r: Result<RestartConfig, String>,
    text: &str,
    p: Result<RestartPolicy, String>,
)
    requires
        call_ensures(RestartConfig::from_value::<F>, (&v, &decode), r),
        call_ensures(RestartPolicy::parse, (text,), p),
    ensures
        v matches Yaml::String(s) ==> (s@ == text@ ==> {
            &&& p is Err ==> r is Err
            &&& p is Ok ==> (r matches Ok(RestartConfig::Simple(q)) && q.flags() == p->Ok_0.flags())
        }),
        v is Null || v is Bool || v is Number || v is Sequence ==> r is Err,
        v is Mapping ==> !(r matches Ok(RestartConfig::Simple(_))),
{
    broadcast use lemma_tree_parts;

}

/// Services start with the daemon if that is set to true or given with an environment, and not if
/// it is false or null.
pub proof fn law_autostart_is_read<
    F: Fn(&Yaml) -> Result<ConfigValue<EnvironmentEntries>, String>,
>(v: Yaml, decode: F, r: Result<AutostartConfig, String>)
    requires
        call_ensures(AutostartConfig::from_value::<F>, (&v, &decode), r),
    ensures
        match v {
            Yaml::Bool(b) => if b {
                r matches Ok(AutostartConfig::Enabled)
            } else {
                r matches Ok(AutostartConfig::Disabled)
            },
            Yaml::Null => r matches Ok(AutostartConfig::Disabled),
            Yaml::Mapping(_) => r matches Ok(c) ==> c is WithEnvironment,
            Yaml::Number(_) => r is Err,
            Yaml::String(_) => r is Err,
            Yaml::Sequence(_) => r is Err,
            Yaml::Tagged { .. } => r is Err,
        },
{
    broadcast use lemma_tree_parts;

}

/// A mapping with the key `run` is a script, whatever else it holds; one without it and with the
/// key `command` is a command; one with neither is refused, and so is what is no mapping.
pub proof fn law_hooks_are_scripts_or_commands<F: Fn(&Yaml) -> Result<HookCommon, String>>(
    v: Yaml,
    decode: F,
    r: Result<HookCommand, String>,
)
    requires
        call_ensures(HookCommand::from_value::<F>, (&v, &decode), r),
    ensures
        v matches Yaml::Mapping(entries) ==> {
            let run = lookup(entry_trees(entries@), Tree::Text("run"@));
            let command = lookup(entry_trees(entries@), Tree::Text("command"@));
            &&& run is Some ==> (r matches Ok(h) ==> h is Script)
            &&& run matches Some(Tree::Text(s)) ==> !occurs(s, "${{"@) ==> (r matches Ok(
                HookCommand::Script { run: t, .. },
            ) ==> (t matches ConfigValue::Static(x) && x@ == s))
            &&& run is None && command is Some ==> (r matches Ok(h) ==> h is Command)
            &&& run is None && command is None ==> r is Err
        },
        v is Null || v is Bool || v is Number || v is String || v is Sequence ==> r is Err,
{
    broadcast use lemma_tree_parts;

}

/// Null is no hook, a mapping is one, and a list is as many as it has items.
pub proof fn law_hook_lists<F: Fn(&Yaml) -> Result<HookCommon, String>>(
    v: Yaml,
    decode: F,
    r: Result<HookList, String>,
)
    requires
        call_ensures(HookList::from_value::<F>, (&v, &decode), r),
    ensures
        match v {
            Yaml::Null => r matches Ok(l) && l.0@.len() == 0,
            Yaml::Mapping(_) => r matches Ok(l) ==> l.0@.len() == 1,
            Yaml::Sequence(items) => r matches Ok(l) ==> l.0@.len() == items@.len(),
            _ => r is Err,
        },
{
    broadcast use lemma_tree_parts;

}

/// A list of permissions is a list of rights without a level; a mapping needs the key `allow`, and
/// may name a level.
pub proof fn law_permissions_are_read(
    items: Vec<Yaml>,
    entries: Vec<(Yaml, Yaml)>,
    plain: Result<ServicePermissions, String>,
    full: Result<ServicePermissions, String>,
    k: int,
)
    requires
        call_ensures(ServicePermissions::from_value, (&Yaml::Sequence(items),), plain),
        call_ensures(ServicePermissions::from_value, (&Yaml::Mapping(entries),), full),
    ensures
        plain matches Ok(p) ==> p.hardening is None && p.allow@.len() == items@.len() && (0 <= k
            < items@.len() && items@[k] is String ==> p.allow@[k]@ == items@[k]->String_0@),
        0 <= k < items@.len() && (items@[k] is Bool || items@[k] is Number || items@[k] is Mapping
            || items@[k] is Null) ==> plain is Err,
        lookup(entry_trees(entries@), Tree::Text("allow"@)) is None ==> full is Err,
        full matches Ok(p) ==> match lookup(entry_trees(entries@), Tree::Text("hardening"@)) {
            Some(Tree::Text(h)) => p.hardening matches Some(l) && l@ == h,
            Some(Tree::Null) => p.hardening is None,
            None => p.hardening is None,
            _ => true,
        },
{
    broadcast use lemma_tree_parts;

    let v = Yaml::Sequence(items);
    let list = trees(items@);
    assert(v@ == Tree::Sequence(list));
    lemma_plain_text_at(list, list.len(), k);
    if 0 <= k < items@.len() {
        assert(list[k] == items@[k]@);
    }
    if let Ok(p) = plain {
        assert(views(p.allow@).len() == p.allow@.len());
        if 0 <= k < items@.len() {
            assert(views(p.allow@)[k] == p.allow@[k]@);
        }
    }
    let w = Yaml::Mapping(entries);
    assert(w@ == Tree::Mapping(entry_trees(entries@)));
}

/// What a list of texts holds at a place.
proof fn lemma_plain_text_at(items: Seq<Tree>, n: nat, k: int)
    requires
        n <= items.len(),
    ensures
        plain_texts_in(items, n) matches Ok(list) ==> list.len() == n && (0 <= k < n ==> text_in(
            items[k],
        ) == Ok::<Seq<char>, Seq<char>>(list[k])),
    decreases n,
{
    if n > 0 {
        lemma_plain_text_at(items, (n - 1) as nat, k);
    }
}

/// Permissions stand under one of two keys, not under both; without them, or with null, there are
/// none.
pub proof fn law_permissions_of_a_service(
    value: Yaml,
    entries: Seq<(Tree, Tree)>,
    r: Result<Option<ServicePermissions>, String>,
)
    requires
        call_ensures(ServicePermissions::of_service, (&value,), r),
        value@ == Tree::Mapping(entries),
    ensures
        ({
            let one = lookup(entries, Tree::Text("permissions"@));
            let two = lookup(entries, Tree::Text("security"@));
            &&& one is Some && two is Some ==> r is Err
            &&& one is None && two is None ==> (r matches Ok(None))
            &&& one == Some(Tree::Null) && two is None ==> (r matches Ok(None))
            &&& (one matches Some(Tree::Sequence(_))) && two is None ==> (r is Err || (
            r matches Ok(Some(_))))
            &&& one is None && (two matches Some(Tree::Sequence(_))) ==> (r is Err || (
            r matches Ok(Some(_))))
        }),
{
}

} // verus!
