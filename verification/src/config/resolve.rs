//! Computing the fields of a configuration when a service starts.
use vstd::prelude::*;
use vstd::string::*;
use crate::config::config_value::ConfigValue;
use crate::config::environment::{text_field, text_fields, TextField};
use crate::config::evaluate::{
    agree, build_act, ends_with, extends, leaf_run, lemma_extends_agree, lemma_extends_twice,
    lemma_leaf_run, reports, Fault, TreeRun,
};
use crate::config::expr::DynamicExpr;
use crate::config::read::{read_text, read_text_list, text_in};
use crate::errors::DaemonError;
use crate::lua_eval::{Act, EvalContext, Reply, Scripts};
use crate::number::{decimal, format_u64};
use crate::text::{concat5, views};
use crate::value::{Tree, Yaml};

verus! {

/// A record of what was asked of the interpreter and answered.
pub type Log = Seq<(Act, Reply)>;

/// That a field has not the value it needs.
pub open spec fn unresolved(field: Seq<char>, m: Seq<char>) -> Fault {
    Fault::Config("Failed to resolve '"@ + field + "': "@ + m)
}

/// The error of a field that has not the value it needs.
pub fn unresolved_error(field: &str, m: &str) -> (r: DaemonError)
    ensures
        forall|path: Seq<char>| reports(r, path, unresolved(field@, m@)),
{
    let text = concat5("Failed to resolve '", field, "': ", m, "");
    proof {
        reveal_strlit("");
        assert(text@ =~= "Failed to resolve '"@ + field@ + "': "@ + m@);
    }
    DaemonError::Config(text)
}

/// Whether `decode` may give `d` for `y`.
pub open spec fn gives<T, F: Fn(&Yaml) -> Result<T, String>>(
    decode: F,
    y: Yaml,
    d: Result<T, String>,
) -> bool {
    call_ensures(decode, (&y,), d)
}

/// Whether a field may have the result `r`, if its tree is computed as `tree`.
pub open spec fn settled<T, F: Fn(&Yaml) -> Result<T, String>>(
    tree: Tree,
    field: Seq<char>,
    path: Seq<char>,
    decode: F,
    r: Result<T, DaemonError>,
) -> bool {
    exists|y: Yaml, d: Result<T, String>| #[trigger]
        gives(decode, y, d) && y@ == tree && match d {
            Ok(v) => r == Ok::<T, DaemonError>(v),
            Err(m) => r matches Err(e) && reports(e, path, unresolved(field, m@)),
        }
}

/// Whether computing a field may take the record from `before` to `after` and give `r`: a known
/// value is copied and nothing is asked; a computed one is what its code gives, decoded. Scripts
/// see the context at the start if `built0`, and at the end if `built1`.
pub open spec fn field_step<T: Clone, F: Fn(&Yaml) -> Result<T, String>>(
    c: ConfigValue<T>,
    field: Seq<char>,
    path: Seq<char>,
    build: Act,
    decode: F,
    before: Log,
    after: Log,
    built0: bool,
    built1: bool,
    r: Result<T, DaemonError>,
) -> bool {
    match c {
        ConfigValue::Static(v) => after == before && built1 == built0 && (r matches Ok(x)
            && cloned(v, x)),
        ConfigValue::Dynamic(expr) => {
            let run = leaf_run(expr@, field, built0, build, after, before.len() as int);
            &&& extends(before, after, run.acts)
            &&& built1 == run.built
            &&& match run.end {
                Ok(t) => settled(t, field, path, decode, r),
                Err(f) => r matches Err(e) && reports(e, path, f),
            }
        },
    }
}

impl<T: Clone> ConfigValue<T> {
    /// The value of the field: the known one, or what its code gives in the context, decoded by
    /// `decode`.
    pub fn resolve<S: Scripts, F: Fn(&Yaml) -> Result<T, String>>(
        &self,
        scripts: &mut S,
        ctx: &EvalContext,
        config_path: &str,
        field_path: &str,
        decode: &F,
    ) -> (r: Result<T, DaemonError>)
        requires
            forall|y: Yaml| #[trigger] call_requires(*decode, (&y,)),
        ensures
            exists|built: bool| #[trigger]
                field_step(
                    *self,
                    field_path@,
                    config_path@,
                    build_act(*ctx, false),
                    *decode,
                    old(scripts).log(),
                    final(scripts).log(),
                    false,
                    built,
                    r,
                ),
    {
        let mut built = false;
        self.resolve_with_env(scripts, ctx, config_path, field_path, &mut built, decode)
    }

    /// The value of the field; `built` says whether scripts see the context already, and is set
    /// once they do.
    pub fn resolve_with_env<S: Scripts, F: Fn(&Yaml) -> Result<T, String>>(
        &self,
        scripts: &mut S,
        ctx: &EvalContext,
        config_path: &str,
        field_path: &str,
        built: &mut bool,
        decode: &F,
    ) -> (r: Result<T, DaemonError>)
        requires
            forall|y: Yaml| #[trigger] call_requires(*decode, (&y,)),
        ensures
            field_step(
                *self,
                field_path@,
                config_path@,
                build_act(*ctx, false),
                *decode,
                old(scripts).log(),
                final(scripts).log(),
                *old(built),
                *final(built),
                r,
            ),
    {
        match self {
            ConfigValue::Static(v) => Ok(v.clone()),
            ConfigValue::Dynamic(expr) => {
                let y = expr.evaluate_in(scripts, ctx, config_path, field_path, built)?;
                match decode(&y) {
                    Ok(v) => {
                        assert(gives(*decode, y, Ok(v)));
                        Ok(v)
                    },
                    Err(m) => {
                        assert(gives(*decode, y, Err(m)));
                        Err(unresolved_error(field_path, m.as_str()))
                    },
                }
            },
        }
    }
}

impl DynamicExpr {
    /// Lets scripts see the context, if they do not see it yet, and computes the value.
    pub fn evaluate_in<S: Scripts>(
        &self,
        scripts: &mut S,
        ctx: &EvalContext,
        config_path: &str,
        field_path: &str,
        built: &mut bool,
    ) -> (r: Result<Yaml, DaemonError>)
        ensures
            ({
                let run = leaf_run(
                    self@,
                    field_path@,
                    *old(built),
                    build_act(*ctx, false),
                    final(scripts).log(),
                    old(scripts).log().len() as int,
                );
                &&& extends(old(scripts).log(), final(scripts).log(), run.acts)
                &&& *final(built) == run.built
                &&& ends_with(r, config_path@, run.end)
            }),
    {
        crate::config::evaluate::evaluate_leaf(self, scripts, ctx, config_path, field_path, built)
    }
}

/// The path of an item of a list.
pub open spec fn item_path(field: Seq<char>, i: int) -> Seq<char> {
    field + "["@ + decimal(i as nat) + "]"@
}

/// The path of an item of a list.
pub fn path_of_item(field: &str, i: usize) -> (r: String)
    ensures
        r@ == item_path(field@, i as int),
{
    let text = concat5(field, "[", format_u64(i as u64).as_str(), "]", "");
    proof {
        reveal_strlit("");
        assert(text@ =~= item_path(field@, i as int));
    }
    text
}

/// What comes of a computed text.
pub open spec fn text_end(end: Result<Tree, Fault>, field: Seq<char>) -> Result<Seq<char>, Fault> {
    match end {
        Ok(t) => match text_in(t) {
            Ok(s) => Ok(s),
            Err(m) => Err(unresolved(field, m)),
        },
        Err(f) => Err(f),
    }
}

/// Computes the first `n` items of a list of texts.
pub open spec fn texts_run(
    items: Seq<TextField>,
    n: nat,
    field: Seq<char>,
    built: bool,
    build: Act,
    log: Log,
    from: int,
) -> TreeRun<Seq<Seq<char>>>
    decreases n,
{
    if n == 0 || n > items.len() {
        TreeRun { acts: seq![], built, end: Ok(seq![]) }
    } else {
        let front = texts_run(items, (n - 1) as nat, field, built, build, log, from);
        match front.end {
            Err(f) => front,
            Ok(done) => match items[n - 1] {
                TextField::Known(s) => TreeRun { end: Ok(done.push(s)), ..front },
                TextField::Computed(c) => {
                    let place = item_path(field, n - 1);
                    let r = leaf_run(c, place, front.built, build, log, from + front.acts.len());
                    TreeRun {
                        acts: front.acts + r.acts,
                        built: r.built,
                        end: match text_end(r.end, place) {
                            Ok(s) => Ok(done.push(s)),
                            Err(f) => Err(f),
                        },
                    }
                },
            },
        }
    }
}

/// Computing texts reads only the answers it asks for.
pub proof fn lemma_texts_run(
    items: Seq<TextField>,
    n: nat,
    field: Seq<char>,
    built: bool,
    build: Act,
    a: Log,
    b: Log,
    from: int,
)
    requires
        0 <= from,
        agree(a, b, from + texts_run(items, n, field, built, build, a, from).acts.len()),
    ensures
        texts_run(items, n, field, built, build, a, from) == texts_run(
            items,
            n,
            field,
            built,
            build,
            b,
            from,
        ),
    decreases n,
{
    if n > 0 && n <= items.len() {
        let m = (n - 1) as nat;
        lemma_texts_run(items, m, field, built, build, a, b, from);
        let front = texts_run(items, m, field, built, build, a, from);
        if front.end is Ok {
            if let TextField::Computed(c) = items[n - 1] {
                lemma_leaf_run(
                    c,
                    item_path(field, n - 1),
                    front.built,
                    build,
                    a,
                    b,
                    from + front.acts.len(),
                );
            }
        }
    }
}

proof fn lemma_texts_stop(
    items: Seq<TextField>,
    n: nat,
    field: Seq<char>,
    built: bool,
    build: Act,
    log: Log,
    from: int,
)
    requires
        n <= items.len(),
        texts_run(items, n, field, built, build, log, from).end is Err,
    ensures
        texts_run(items, items.len(), field, built, build, log, from) == texts_run(
            items,
            n,
            field,
            built,
            build,
            log,
            from,
        ),
    decreases items.len() - n,
{
    if n < items.len() {
        lemma_texts_stop(items, n + 1, field, built, build, log, from);
    }
}

/// Whether a list of texts is what a run ends with.
pub open spec fn texts_end(
    r: Result<Vec<String>, DaemonError>,
    path: Seq<char>,
    end: Result<Seq<Seq<char>>, Fault>,
) -> bool {
    match r {
        Ok(list) => end == Ok::<Seq<Seq<char>>, Fault>(views(list@)),
        Err(e) => end matches Err(f) && reports(e, path, f),
    }
}

/// The texts of a list of known and computed texts.
fn resolve_items<S: Scripts>(
    items: &Vec<ConfigValue<String>>,
    scripts: &mut S,
    ctx: &EvalContext,
    config_path: &str,
    field_path: &str,
    built: &mut bool,
) -> (r: Result<Vec<String>, DaemonError>)
    ensures
        ({
            let run = texts_run(
                text_fields(items@),
                items@.len(),
                field_path@,
                *old(built),
                build_act(*ctx, false),
                final(scripts).log(),
                old(scripts).log().len() as int,
            );
            &&& extends(old(scripts).log(), final(scripts).log(), run.acts)
            &&& *final(built) == run.built
            &&& texts_end(r, config_path@, run.end)
        }),
{
    let ghost fields = text_fields(items@);
    let ghost build = build_act(*ctx, false);
    let ghost start = scripts.log();
    let ghost from = start.len() as int;
    let ghost built0 = *built;
    let mut out: Vec<String> = Vec::new();
    let mut i: usize = 0;
    assert(views(out@) == Seq::<Seq<char>>::empty());
    while i < items.len()
        invariant
            i <= items@.len(),
            fields == text_fields(items@),
            start == old(scripts).log(),
            from == start.len(),
            built0 == *old(built),
            build == build_act(*ctx, false),
            ({
                let run = texts_run(
                    fields,
                    i as nat,
                    field_path@,
                    built0,
                    build,
                    scripts.log(),
                    from,
                );
                &&& extends(start, scripts.log(), run.acts)
                &&& *built == run.built
                &&& run.end == Ok::<Seq<Seq<char>>, Fault>(views(out@))
            }),
        decreases items@.len() - i,
    {
        let ghost before = scripts.log();
        let ghost done = views(out@);
        let ghost front = texts_run(fields, i as nat, field_path@, built0, build, before, from);
        assert(fields[i as int] == text_field(items@[i as int]));
        match &items[i] {
            ConfigValue::Static(s) => {
                out.push(s.clone());
                assert(views(out@) == done.push(s@));
            },
            ConfigValue::Dynamic(expr) => {
                let place = path_of_item(field_path, i);
                let r = expr.evaluate_in(scripts, ctx, config_path, place.as_str(), built);
                proof {
                    let now = scripts.log();
                    let run = leaf_run(
                        expr@,
                        place@,
                        front.built,
                        build,
                        now,
                        before.len() as int,
                    );
                    lemma_extends_agree(before, now, run.acts);
                    lemma_texts_run(
                        fields,
                        i as nat,
                        field_path@,
                        built0,
                        build,
                        before,
                        now,
                        from,
                    );
                    lemma_extends_twice(start, before, now, front.acts, run.acts);
                }
                let text = match r {
                    Ok(y) => match read_text(&y) {
                        Ok(s) => Ok(s),
                        Err(m) => Err(unresolved_error(place.as_str(), m.as_str())),
                    },
                    Err(e) => Err(e),
                };
                match text {
                    Ok(s) => {
                        out.push(s);
                        assert(views(out@) == done.push(s@));
                    },
                    Err(e) => {
                        proof {
                            lemma_texts_stop(
                                fields,
                                (i + 1) as nat,
                                field_path@,
                                built0,
                                build,
                                scripts.log(),
                                from,
                            );
                        }
                        return Err(e);
                    },
                }
            },
        }
        i += 1;
    }
    Ok(out)
}

/// Whether computing a field that is a list of texts may take the record from `before` to `after`
/// and give `r`: first the list is computed, then its items one by one.
pub open spec fn list_step(
    c: ConfigValue<Vec<ConfigValue<String>>>,
    field: Seq<char>,
    path: Seq<char>,
    build: Act,
    before: Log,
    after: Log,
    built0: bool,
    built1: bool,
    r: Result<Vec<String>, DaemonError>,
) -> bool {
    exists|
        middle: Log,
        built: bool,
        items: Result<Vec<ConfigValue<String>>, DaemonError>,
    | #[trigger]
        field_step(
            c,
            field,
            path,
            build,
            read_text_list,
            before,
            middle,
            built0,
            built,
            items,
        ) && items_step(items, field, path, build, middle, after, built, built1, r)
}

/// Whether computing the items of a list may take the record from `before` to `after` and give
/// `r`.
pub open spec fn items_step(
    items: Result<Vec<ConfigValue<String>>, DaemonError>,
    field: Seq<char>,
    path: Seq<char>,
    build: Act,
    before: Log,
    after: Log,
    built0: bool,
    built1: bool,
    r: Result<Vec<String>, DaemonError>,
) -> bool {
    match items {
        Err(e) => after == before && built1 == built0 && r == Err::<Vec<String>, DaemonError>(e),
        Ok(list) => {
            let run = texts_run(
                text_fields(list@),
                list@.len(),
                field,
                built0,
                build,
                after,
                before.len() as int,
            );
            &&& extends(before, after, run.acts)
            &&& built1 == run.built
            &&& texts_end(r, path, run.end)
        },
    }
}

/// The texts of a field that is a list of texts. The list and each of its items can be known or
/// computed.
pub fn resolve_nested_vec<S: Scripts>(
    cv: &ConfigValue<Vec<ConfigValue<String>>>,
    scripts: &mut S,
    ctx: &EvalContext,
    config_path: &str,
    field_path: &str,
    built: &mut bool,
) -> (r: Result<Vec<String>, DaemonError>)
    ensures
        list_step(
            *cv,
            field_path@,
            config_path@,
            build_act(*ctx, false),
            old(scripts).log(),
            final(scripts).log(),
            *old(built),
            *final(built),
            r,
        ),
{
    let ghost before = scripts.log();
    let ghost built0 = *built;
    let items = cv.resolve_with_env(
        scripts,
        ctx,
        config_path,
        field_path,
        built,
        &read_text_list,
    );
    let ghost middle = scripts.log();
    let ghost built_then = *built;
    let ghost found = items;
    assert(field_step(
        *cv,
        field_path@,
        config_path@,
        build_act(*ctx, false),
        read_text_list,
        before,
        middle,
        built0,
        built_then,
        found,
    ));
    match items {
        Ok(list) => resolve_items(&list, scripts, ctx, config_path, field_path, built),
        Err(e) => Err(e),
    }
}

} // verus!
