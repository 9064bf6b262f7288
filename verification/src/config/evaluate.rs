//! Computing the parts of a configuration that are written as code.
use vstd::prelude::*;
use vstd::string::*;
use crate::config::expand::{parse_expr_tokens, pieces, pieces_of, ExprToken, Piece};
use crate::config::expr::{classified, owned_pieces, Computed, DynamicExpr, OwnedExprToken};
use crate::config::lua::{lua_to_yaml, yaml_of};
use crate::errors::DaemonError;
use crate::lua_eval::{scene, seen_vars, Act, EvalContext, Form, Order, Reply, Scripts};
use crate::lua_value::{interpolated, lua_value_to_string};
use crate::text::{concat, concat3, concat5, contains, occurs, same};
use crate::value::{entry_trees, lemma_tree_parts, trees, untagged, Tree, Yaml};

verus! {

/// Why a value could not be computed.
#[verifier::ext_equal]
pub enum Fault {
    /// A script failed.
    Lua(Seq<char>),
    /// The configuration is wrong.
    Config(Seq<char>),
}

/// Whether an error reports a fault of the configuration at `path`.
pub open spec fn reports(e: DaemonError, path: Seq<char>, f: Fault) -> bool {
    match f {
        Fault::Lua(m) => e matches DaemonError::LuaError { path: p, message } && p@ == path
            && message@ == m,
        Fault::Config(m) => e matches DaemonError::Config(text) && text@ == m,
    }
}

/// What is asked of the interpreter, and what comes of it.
#[verifier::ext_equal]
pub struct Run<T> {
    pub acts: Seq<Act>,
    pub end: Result<T, Fault>,
}

/// Whether the record `after` is the record `before` and then `acts`.
pub open spec fn extends(
    before: Seq<(Act, Reply)>,
    after: Seq<(Act, Reply)>,
    acts: Seq<Act>,
) -> bool {
    &&& after.len() == before.len() + acts.len()
    &&& forall|k: int| 0 <= k < before.len() ==> after[k] == #[trigger] before[k]
    &&& forall|k: int|
        before.len() <= k < after.len() ==> (#[trigger] after[k]).0 == acts[k - before.len()]
}

/// Whether two records have the same first `n` entries.
pub open spec fn agree(a: Seq<(Act, Reply)>, b: Seq<(Act, Reply)>, n: int) -> bool {
    &&& n <= a.len()
    &&& n <= b.len()
    &&& forall|k: int| 0 <= k < n ==> #[trigger] a[k] == b[k]
}

/// What is wrong with an expression.
pub open spec fn expression_fault(code: Seq<char>, m: Seq<char>) -> Fault {
    Fault::Lua("Error evaluating ${{ "@ + code + " }}$: "@ + m)
}

/// Fills a text: each expression is replaced by what its result is written as. The answers start
/// at `from`.
pub open spec fn text_run(
    p: Seq<Piece>,
    chunk: Seq<char>,
    log: Seq<(Act, Reply)>,
    from: int,
) -> Run<Seq<char>>
    decreases p.len(),
{
    if p.len() == 0 {
        Run { acts: seq![], end: Ok(seq![]) }
    } else {
        let front = text_run(p.drop_last(), chunk, log, from);
        match front.end {
            Err(f) => front,
            Ok(t) => match p.last() {
                Piece::Literal(s) => Run { acts: front.acts, end: Ok(t + s) },
                Piece::Expression(e) => Run {
                    acts: front.acts.push(Act::Run { form: Form::Text, code: e, chunk }),
                    end: match log[from + front.acts.len()].1 {
                        Reply::Value(v) => Ok(t + interpolated(v)),
                        Reply::Fault(m) => Err(expression_fault(e, m)),
                    },
                },
            },
        }
    }
}

/// What comes of an answer whose type is kept.
pub open spec fn typed_end(r: Reply, fault: spec_fn(Seq<char>) -> Fault) -> Result<Tree, Fault> {
    match r {
        Reply::Value(v) => match yaml_of(v) {
            Ok(t) => Ok(t),
            Err(m) => Err(Fault::Lua(m)),
        },
        Reply::Fault(m) => Err(fault(m)),
    }
}

/// Computes a value. The answers start at `from`.
pub open spec fn expr_run(
    c: Computed,
    chunk: Seq<char>,
    log: Seq<(Act, Reply)>,
    from: int,
) -> Run<Tree> {
    match c {
        Computed::Expression(e) => Run {
            acts: seq![Act::Run { form: Form::Value, code: e, chunk }],
            end: typed_end(log[from].1, |m: Seq<char>| expression_fault(e, m)),
        },
        Computed::Interpolated(p) => {
            let r = text_run(p, chunk, log, from);
            Run {
                acts: r.acts,
                end: match r.end {
                    Ok(t) => Ok(Tree::Text(t)),
                    Err(f) => Err(f),
                },
            }
        },
        Computed::Lua(code) => Run {
            acts: seq![Act::Run { form: Form::Block, code, chunk }],
            end: typed_end(log[from].1, |m: Seq<char>| Fault::Lua("Lua error: "@ + m)),
        },
    }
}

/// What is asked to let scripts see a context.
pub open spec fn build_act(ctx: EvalContext, open: bool) -> Act {
    Act::Build { scene: scene(ctx), vars: seen_vars(ctx.active()), open }
}

/// That a context could not be shown.
pub open spec fn build_fault(m: Seq<char>) -> Fault {
    Fault::Lua("Error building Lua environment: "@ + m)
}

/// Computes parts of a tree; `built` says whether scripts see the context at the end.
#[verifier::ext_equal]
pub struct TreeRun<T> {
    pub acts: Seq<Act>,
    pub built: bool,
    pub end: Result<T, Fault>,
}

/// Lets scripts see the context, if they do not see it yet, and computes a value.
pub open spec fn leaf_run(
    c: Computed,
    path: Seq<char>,
    built: bool,
    build: Act,
    log: Seq<(Act, Reply)>,
    from: int,
) -> TreeRun<Tree> {
    if built {
        let r = expr_run(c, path, log, from);
        TreeRun { acts: r.acts, built: true, end: r.end }
    } else {
        match log[from].1 {
            Reply::Fault(m) => TreeRun { acts: seq![build], built: false, end: Err(build_fault(m)) },
            Reply::Value(_) => {
                let r = expr_run(c, path, log, from + 1);
                TreeRun { acts: seq![build] + r.acts, built: true, end: r.end }
            },
        }
    }
}

/// The path of the value of a key.
pub open spec fn child_path(path: Seq<char>, key: Tree) -> Seq<char> {
    match untagged(key) {
        Tree::Text(k) => if path.len() == 0 {
            k
        } else {
            path + "."@ + k
        },
        _ => path,
    }
}

/// Whether the code in the value of a key is left for later.
pub open spec fn is_deferred(key: Tree) -> bool {
    untagged(key) == Tree::Text("depends_on"@) || untagged(key) == Tree::Text("outputs"@)
}

/// Computes the parts of a tree that are written as code: texts with expressions and values with
/// the tag `lua`. What stands under a key whose code is left for later, at any depth, is kept as
/// it is. The answers start at `from`.
pub open spec fn tree_run(
    t: Tree,
    path: Seq<char>,
    deferred: bool,
    built: bool,
    build: Act,
    log: Seq<(Act, Reply)>,
    from: int,
) -> TreeRun<Tree>
    decreases t, 0nat,
{
    match t {
        _ if deferred => TreeRun { acts: seq![], built, end: Ok(t) },
        Tree::Text(s) => if occurs(s, "${{"@) {
            leaf_run(classified(t)->0, path, built, build, log, from)
        } else {
            TreeRun { acts: seq![], built, end: Ok(t) }
        },
        Tree::Tagged(tag, inner) => if tag == "lua"@ {
            match untagged(*inner) {
                Tree::Text(code) => leaf_run(Computed::Lua(code), path, built, build, log, from),
                _ => TreeRun {
                    acts: seq![],
                    built,
                    end: Err(Fault::Lua("!lua value must be a string"@)),
                },
            }
        } else {
            let r = tree_run(*inner, path, deferred, built, build, log, from);
            TreeRun {
                acts: r.acts,
                built: r.built,
                end: match r.end {
                    Ok(v) => Ok(Tree::Tagged(tag, Box::new(v))),
                    Err(f) => Err(f),
                },
            }
        },
        Tree::Sequence(items) => {
            let r = items_run(items, items.len(), path, deferred, built, build, log, from);
            TreeRun {
                acts: r.acts,
                built: r.built,
                end: match r.end {
                    Ok(v) => Ok(Tree::Sequence(v)),
                    Err(f) => Err(f),
                },
            }
        },
        Tree::Mapping(entries) => {
            let r = entries_run(entries, entries.len(), path, built, build, log, from);
            TreeRun {
                acts: r.acts,
                built: r.built,
                end: match r.end {
                    Ok(v) => Ok(Tree::Mapping(v)),
                    Err(f) => Err(f),
                },
            }
        },
        _ => TreeRun { acts: seq![], built, end: Ok(t) },
    }
}

/// Computes the first `n` items of a sequence.
pub open spec fn items_run(
    items: Seq<Tree>,
    n: nat,
    path: Seq<char>,
    deferred: bool,
    built: bool,
    build: Act,
    log: Seq<(Act, Reply)>,
    from: int,
) -> TreeRun<Seq<Tree>>
    decreases items, n,
{
    if n == 0 || n > items.len() {
        TreeRun { acts: seq![], built, end: Ok(seq![]) }
    } else {
        let front = items_run(items, (n - 1) as nat, path, deferred, built, build, log, from);
        match front.end {
            Err(f) => front,
            Ok(done) => {
                let r = tree_run(
                    items[n - 1],
                    path,
                    deferred,
                    front.built,
                    build,
                    log,
                    from + front.acts.len(),
                );
                TreeRun {
                    acts: front.acts + r.acts,
                    built: r.built,
                    end: match r.end {
                        Ok(v) => Ok(done.push(v)),
                        Err(f) => Err(f),
                    },
                }
            },
        }
    }
}

/// Computes the values of the first `n` entries of a mapping.
pub open spec fn entries_run(
    entries: Seq<(Tree, Tree)>,
    n: nat,
    path: Seq<char>,
    built: bool,
    build: Act,
    log: Seq<(Act, Reply)>,
    from: int,
) -> TreeRun<Seq<(Tree, Tree)>>
    decreases entries, n,
{
    if n == 0 || n > entries.len() {
        TreeRun { acts: seq![], built, end: Ok(seq![]) }
    } else {
        let front = entries_run(entries, (n - 1) as nat, path, built, build, log, from);
        match front.end {
            Err(f) => front,
            Ok(done) => {
                let key = entries[n - 1].0;
                let r = tree_run(
                    entries[n - 1].1,
                    child_path(path, key),
                    is_deferred(key),
                    front.built,
                    build,
                    log,
                    from + front.acts.len(),
                );
                TreeRun {
                    acts: front.acts + r.acts,
                    built: r.built,
                    end: match r.end {
                        Ok(v) => Ok(done.push((key, v))),
                        Err(f) => Err(f),
                    },
                }
            },
        }
    }
}

/// What stands in the place of a tree once its code was computed as far as that went: up to the
/// first part that fails, the parts are replaced, and the others are as they were.
pub open spec fn tree_left(
    t: Tree,
    path: Seq<char>,
    deferred: bool,
    built: bool,
    build: Act,
    log: Seq<(Act, Reply)>,
    from: int,
) -> Tree
    decreases t, 0nat,
{
    match t {
        Tree::Tagged(tag, inner) if !deferred && tag != "lua"@ => Tree::Tagged(
            tag,
            Box::new(tree_left(*inner, path, deferred, built, build, log, from)),
        ),
        Tree::Sequence(items) if !deferred => Tree::Sequence(
            items_left(items, items.len(), path, deferred, built, build, log, from),
        ),
        Tree::Mapping(entries) if !deferred => Tree::Mapping(
            entries_left(entries, entries.len(), path, built, build, log, from),
        ),
        _ => match tree_run(t, path, deferred, built, build, log, from).end {
            Ok(v) => v,
            Err(_) => t,
        },
    }
}

/// What stands in the places of the first `n` items of a sequence.
pub open spec fn items_left(
    items: Seq<Tree>,
    n: nat,
    path: Seq<char>,
    deferred: bool,
    built: bool,
    build: Act,
    log: Seq<(Act, Reply)>,
    from: int,
) -> Seq<Tree>
    decreases items, n,
{
    if n == 0 || n > items.len() {
        seq![]
    } else {
        let m = (n - 1) as nat;
        let front = items_run(items, m, path, deferred, built, build, log, from);
        items_left(items, m, path, deferred, built, build, log, from).push(
            match front.end {
                Ok(_) => tree_left(
                    items[n - 1],
                    path,
                    deferred,
                    front.built,
                    build,
                    log,
                    from + front.acts.len(),
                ),
                Err(_) => items[n - 1],
            },
        )
    }
}

/// What stands in the places of the first `n` entries of a mapping.
pub open spec fn entries_left(
    entries: Seq<(Tree, Tree)>,
    n: nat,
    path: Seq<char>,
    built: bool,
    build: Act,
    log: Seq<(Act, Reply)>,
    from: int,
) -> Seq<(Tree, Tree)>
    decreases entries, n,
{
    if n == 0 || n > entries.len() {
        seq![]
    } else {
        let m = (n - 1) as nat;
        let front = entries_run(entries, m, path, built, build, log, from);
        let key = entries[n - 1].0;
        entries_left(entries, m, path, built, build, log, from).push(
            (
                key,
                match front.end {
                    Ok(_) => tree_left(
                        entries[n - 1].1,
                        child_path(path, key),
                        is_deferred(key),
                        front.built,
                        build,
                        log,
                        from + front.acts.len(),
                    ),
                    Err(_) => entries[n - 1].1,
                },
            ),
        )
    }
}

/// Where nothing fails, the result stands in the place of the tree.
pub proof fn law_result_stands_in_place(
    t: Tree,
    path: Seq<char>,
    deferred: bool,
    built: bool,
    build: Act,
    log: Seq<(Act, Reply)>,
    from: int,
)
    requires
        tree_run(t, path, deferred, built, build, log, from).end is Ok,
    ensures
        tree_run(t, path, deferred, built, build, log, from).end == Ok::<Tree, Fault>(
            tree_left(t, path, deferred, built, build, log, from),
        ),
    decreases t, 0nat,
{
    match t {
        _ if deferred => {},
        Tree::Tagged(tag, inner) => {
            if tag != "lua"@ {
                law_result_stands_in_place(*inner, path, deferred, built, build, log, from);
            }
        },
        Tree::Sequence(items) => {
            lemma_items_done(items, items.len(), path, deferred, built, build, log, from);
        },
        Tree::Mapping(entries) => {
            lemma_entries_done(entries, entries.len(), path, built, build, log, from);
        },
        _ => {},
    }
}

proof fn lemma_items_done(
    items: Seq<Tree>,
    n: nat,
    path: Seq<char>,
    deferred: bool,
    built: bool,
    build: Act,
    log: Seq<(Act, Reply)>,
    from: int,
)
    requires
        n <= items.len(),
        items_run(items, n, path, deferred, built, build, log, from).end is Ok,
    ensures
        items_run(items, n, path, deferred, built, build, log, from).end == Ok::<Seq<Tree>, Fault>(
            items_left(items, n, path, deferred, built, build, log, from),
        ),
    decreases items, n,
{
    if n > 0 {
        let m = (n - 1) as nat;
        lemma_items_done(items, m, path, deferred, built, build, log, from);
        let front = items_run(items, m, path, deferred, built, build, log, from);
        law_result_stands_in_place(
            items[n - 1],
            path,
            deferred,
            front.built,
            build,
            log,
            from + front.acts.len(),
        );
    }
}

proof fn lemma_entries_done(
    entries: Seq<(Tree, Tree)>,
    n: nat,
    path: Seq<char>,
    built: bool,
    build: Act,
    log: Seq<(Act, Reply)>,
    from: int,
)
    requires
        n <= entries.len(),
        entries_run(entries, n, path, built, build, log, from).end is Ok,
    ensures
        entries_run(entries, n, path, built, build, log, from).end == Ok::<
            Seq<(Tree, Tree)>,
            Fault,
        >(entries_left(entries, n, path, built, build, log, from)),
    decreases entries, n,
{
    if n > 0 {
        let m = (n - 1) as nat;
        lemma_entries_done(entries, m, path, built, build, log, from);
        let front = entries_run(entries, m, path, built, build, log, from);
        let key = entries[n - 1].0;
        law_result_stands_in_place(
            entries[n - 1].1,
            child_path(path, key),
            is_deferred(key),
            front.built,
            build,
            log,
            from + front.acts.len(),
        );
    }
}

/// Filling a text reads only the answers it asks for.
pub proof fn lemma_text_run(
    p: Seq<Piece>,
    chunk: Seq<char>,
    a: Seq<(Act, Reply)>,
    b: Seq<(Act, Reply)>,
    from: int,
)
    requires
        0 <= from,
        agree(a, b, from + text_run(p, chunk, a, from).acts.len()),
    ensures
        text_run(p, chunk, a, from) == text_run(p, chunk, b, from),
    decreases p.len(),
{
    if p.len() > 0 {
        lemma_text_run(p.drop_last(), chunk, a, b, from);
    }
}

/// Computing a value reads only the answers it asks for.
pub proof fn lemma_expr_run(
    c: Computed,
    chunk: Seq<char>,
    a: Seq<(Act, Reply)>,
    b: Seq<(Act, Reply)>,
    from: int,
)
    requires
        0 <= from,
        agree(a, b, from + expr_run(c, chunk, a, from).acts.len()),
    ensures
        expr_run(c, chunk, a, from) == expr_run(c, chunk, b, from),
{
    match c {
        Computed::Interpolated(p) => {
            lemma_text_run(p, chunk, a, b, from);
        },
        _ => {
            assert(a[from] == b[from]);
        },
    }
}

/// Computing a part of a tree reads only the answers it asks for.
pub proof fn lemma_leaf_run(
    c: Computed,
    path: Seq<char>,
    built: bool,
    build: Act,
    a: Seq<(Act, Reply)>,
    b: Seq<(Act, Reply)>,
    from: int,
)
    requires
        0 <= from,
        agree(a, b, from + leaf_run(c, path, built, build, a, from).acts.len()),
    ensures
        leaf_run(c, path, built, build, a, from) == leaf_run(c, path, built, build, b, from),
{
    if built {
        lemma_expr_run(c, path, a, b, from);
    } else {
        assert(a[from] == b[from]);
        if a[from].1 is Value {
            lemma_expr_run(c, path, a, b, from + 1);
        }
    }
}

/// Computing a tree reads only the answers it asks for.
pub proof fn lemma_tree_run(
    t: Tree,
    path: Seq<char>,
    deferred: bool,
    built: bool,
    build: Act,
    a: Seq<(Act, Reply)>,
    b: Seq<(Act, Reply)>,
    from: int,
)
    requires
        0 <= from,
        agree(a, b, from + tree_run(t, path, deferred, built, build, a, from).acts.len()),
    ensures
        tree_run(t, path, deferred, built, build, a, from) == tree_run(
            t,
            path,
            deferred,
            built,
            build,
            b,
            from,
        ),
    decreases t, 0nat,
{
    match t {
        _ if deferred => {},
        Tree::Text(s) => {
            if occurs(s, "${{"@) {
                lemma_leaf_run(classified(t)->0, path, built, build, a, b, from);
            }
        },
        Tree::Tagged(tag, inner) => {
            if tag == "lua"@ {
                if let Tree::Text(code) = untagged(*inner) {
                    lemma_leaf_run(Computed::Lua(code), path, built, build, a, b, from);
                }
            } else {
                lemma_tree_run(*inner, path, deferred, built, build, a, b, from);
            }
        },
        Tree::Sequence(items) => {
            lemma_items_run(items, items.len(), path, deferred, built, build, a, b, from);
        },
        Tree::Mapping(entries) => {
            lemma_entries_run(entries, entries.len(), path, built, build, a, b, from);
        },
        _ => {},
    }
}

/// Computing items reads only the answers it asks for.
pub proof fn lemma_items_run(
    items: Seq<Tree>,
    n: nat,
    path: Seq<char>,
    deferred: bool,
    built: bool,
    build: Act,
    a: Seq<(Act, Reply)>,
    b: Seq<(Act, Reply)>,
    from: int,
)
    requires
        0 <= from,
        agree(a, b, from + items_run(items, n, path, deferred, built, build, a, from).acts.len()),
    ensures
        items_run(items, n, path, deferred, built, build, a, from) == items_run(
            items,
            n,
            path,
            deferred,
            built,
            build,
            b,
            from,
        ),
    decreases items, n,
{
    if n > 0 && n <= items.len() {
        let m = (n - 1) as nat;
        lemma_items_run(items, m, path, deferred, built, build, a, b, from);
        let front = items_run(items, m, path, deferred, built, build, a, from);
        if front.end is Ok {
            lemma_tree_run(
                items[n - 1],
                path,
                deferred,
                front.built,
                build,
                a,
                b,
                from + front.acts.len(),
            );
        }
    }
}

/// Computing entries reads only the answers it asks for.
pub proof fn lemma_entries_run(
    entries: Seq<(Tree, Tree)>,
    n: nat,
    path: Seq<char>,
    built: bool,
    build: Act,
    a: Seq<(Act, Reply)>,
    b: Seq<(Act, Reply)>,
    from: int,
)
    requires
        0 <= from,
        agree(a, b, from + entries_run(entries, n, path, built, build, a, from).acts.len()),
    ensures
        entries_run(entries, n, path, built, build, a, from) == entries_run(
            entries,
            n,
            path,
            built,
            build,
            b,
            from,
        ),
    decreases entries, n,
{
    if n > 0 && n <= entries.len() {
        let m = (n - 1) as nat;
        lemma_entries_run(entries, m, path, built, build, a, b, from);
        let front = entries_run(entries, m, path, built, build, a, from);
        if front.end is Ok {
            let key = entries[n - 1].0;
            lemma_tree_run(
                entries[n - 1].1,
                child_path(path, key),
                is_deferred(key),
                front.built,
                build,
                a,
                b,
                from + front.acts.len(),
            );
        }
    }
}

/// What stands in the place of a tree depends only on the answers that are asked for.
pub proof fn lemma_tree_left(
    t: Tree,
    path: Seq<char>,
    deferred: bool,
    built: bool,
    build: Act,
    a: Seq<(Act, Reply)>,
    b: Seq<(Act, Reply)>,
    from: int,
)
    requires
        0 <= from,
        agree(a, b, from + tree_run(t, path, deferred, built, build, a, from).acts.len()),
    ensures
        tree_left(t, path, deferred, built, build, a, from) == tree_left(
            t,
            path,
            deferred,
            built,
            build,
            b,
            from,
        ),
    decreases t, 0nat,
{
    lemma_tree_run(t, path, deferred, built, build, a, b, from);
    match t {
        _ if deferred => {},
        Tree::Tagged(tag, inner) => {
            if tag != "lua"@ {
                lemma_tree_left(*inner, path, deferred, built, build, a, b, from);
            }
        },
        Tree::Sequence(items) => {
            lemma_items_left(items, items.len(), path, deferred, built, build, a, b, from);
        },
        Tree::Mapping(entries) => {
            lemma_entries_left(entries, entries.len(), path, built, build, a, b, from);
        },
        _ => {},
    }
}

proof fn lemma_items_left(
    items: Seq<Tree>,
    n: nat,
    path: Seq<char>,
    deferred: bool,
    built: bool,
    build: Act,
    a: Seq<(Act, Reply)>,
    b: Seq<(Act, Reply)>,
    from: int,
)
    requires
        0 <= from,
        agree(a, b, from + items_run(items, n, path, deferred, built, build, a, from).acts.len()),
    ensures
        items_left(items, n, path, deferred, built, build, a, from) == items_left(
            items,
            n,
            path,
            deferred,
            built,
            build,
            b,
            from,
        ),
    decreases items, n,
{
    if n > 0 && n <= items.len() {
        let m = (n - 1) as nat;
        lemma_items_left(items, m, path, deferred, built, build, a, b, from);
        lemma_items_run(items, m, path, deferred, built, build, a, b, from);
        let front = items_run(items, m, path, deferred, built, build, a, from);
        if front.end is Ok {
            lemma_tree_left(
                items[n - 1],
                path,
                deferred,
                front.built,
                build,
                a,
                b,
                from + front.acts.len(),
            );
        }
    }
}

proof fn lemma_entries_left(
    entries: Seq<(Tree, Tree)>,
    n: nat,
    path: Seq<char>,
    built: bool,
    build: Act,
    a: Seq<(Act, Reply)>,
    b: Seq<(Act, Reply)>,
    from: int,
)
    requires
        0 <= from,
        agree(a, b, from + entries_run(entries, n, path, built, build, a, from).acts.len()),
    ensures
        entries_left(entries, n, path, built, build, a, from) == entries_left(
            entries,
            n,
            path,
            built,
            build,
            b,
            from,
        ),
    decreases entries, n,
{
    if n > 0 && n <= entries.len() {
        let m = (n - 1) as nat;
        lemma_entries_left(entries, m, path, built, build, a, b, from);
        lemma_entries_run(entries, m, path, built, build, a, b, from);
        let front = entries_run(entries, m, path, built, build, a, from);
        if front.end is Ok {
            let key = entries[n - 1].0;
            lemma_tree_left(
                entries[n - 1].1,
                child_path(path, key),
                is_deferred(key),
                front.built,
                build,
                a,
                b,
                from + front.acts.len(),
            );
        }
    }
}

/// A record that goes on agrees with what it was.
pub proof fn lemma_extends_agree(
    before: Seq<(Act, Reply)>,
    after: Seq<(Act, Reply)>,
    acts: Seq<Act>,
)
    requires
        extends(before, after, acts),
    ensures
        agree(before, after, before.len() as int),
{
}

/// Two extensions in a row.
pub proof fn lemma_extends_twice(
    first: Seq<(Act, Reply)>,
    second: Seq<(Act, Reply)>,
    third: Seq<(Act, Reply)>,
    x: Seq<Act>,
    y: Seq<Act>,
)
    requires
        extends(first, second, x),
        extends(second, third, y),
    ensures
        extends(first, third, x + y),
{
    assert forall|k: int| first.len() <= k < third.len() implies (#[trigger] third[k]).0 == (x
        + y)[k - first.len()] by {
        if k < second.len() {
            assert(third[k] == second[k]);
        }
    }
    assert forall|k: int| 0 <= k < first.len() implies third[k] == #[trigger] first[k] by {
        assert(second[k] == first[k]);
        assert(third[k] == second[k]);
    }
}

/// The error of a script.
pub fn lua_error(config_path: &str, message: String) -> (r: DaemonError)
    ensures
        reports(r, config_path@, Fault::Lua(message@)),
{
    DaemonError::LuaError { path: config_path.to_owned(), message }
}

/// The error of an expression.
fn expression_error(config_path: &str, code: &str, message: &str) -> (r: DaemonError)
    ensures
        reports(r, config_path@, expression_fault(code@, message@)),
{
    let text = concat5("Error evaluating ${{ ", code, " }}$: ", message, "");
    proof {
        reveal_strlit("");
        assert(text@ =~= "Error evaluating ${{ "@ + code@ + " }}$: "@ + message@);
    }
    lua_error(config_path, text)
}

/// Asks for the result of an expression that goes into a text, and writes it at the end of
/// `out`.
fn push_result<S: Scripts>(
    out: &mut String,
    code: &str,
    scripts: &mut S,
    config_path: &str,
    chunk: &str,
) -> (r: Result<(), DaemonError>)
    ensures
        extends(
            old(scripts).log(),
            final(scripts).log(),
            seq![Act::Run { form: Form::Text, code: code@, chunk: chunk@ }],
        ),
        match final(scripts).log().last().1 {
            Reply::Value(v) => r is Ok && final(out)@ == old(out)@ + interpolated(v),
            Reply::Fault(m) => r matches Err(e) && reports(
                e,
                config_path@,
                expression_fault(code@, m),
            ),
        },
{
    match scripts.perform(Order::Run { form: Form::Text, code, chunk }) {
        Ok(v) => {
            out.append(lua_value_to_string(&v).as_str());
            Ok(())
        },
        Err(m) => Err(expression_error(config_path, code, m.as_str())),
    }
}

/// Fills a text.
fn evaluate_tokens_to_string<S: Scripts>(
    s: &str,
    scripts: &mut S,
    config_path: &str,
    chunk_name: &str,
) -> (r: Result<String, DaemonError>)
    ensures
        ({
            let run = text_run(
                pieces_of(s@),
                chunk_name@,
                final(scripts).log(),
                old(scripts).log().len() as int,
            );
            &&& extends(old(scripts).log(), final(scripts).log(), run.acts)
            &&& match r {
                Ok(t) => run.end == Ok::<Seq<char>, Fault>(t@),
                Err(e) => run.end matches Err(f) && reports(e, config_path@, f),
            }
        }),
{
    let tokens = parse_expr_tokens(s);
    let mut out: String = String::new();
    let ghost p = pieces_of(s@);
    let ghost start = scripts.log();
    let ghost from = start.len() as int;
    let mut i: usize = 0;
    assert(p.take(0) == Seq::<Piece>::empty());
    assert(out@ == Seq::<char>::empty());
    while i < tokens.len()
        invariant
            i <= tokens@.len(),
            p == pieces(tokens@),
            from == start.len(),
            extends(start, scripts.log(), text_run(p.take(i as int), chunk_name@, scripts.log(), from).acts),
            text_run(p.take(i as int), chunk_name@, scripts.log(), from).end == Ok::<Seq<char>, Fault>(out@),
            p == pieces_of(s@),
            start == old(scripts).log(),
        decreases tokens@.len() - i,
    {
        assert(p.take(i + 1).drop_last() == p.take(i as int));
        assert(p.take(i + 1).last() == tokens@[i as int]@);
        let ghost before = scripts.log();
        let ghost front = text_run(p.take(i as int), chunk_name@, before, from);
        match &tokens[i] {
            ExprToken::String(t) => {
                out.append(t.as_str());
            },
            ExprToken::Expression(e) => {
                let done = push_result(&mut out, e.as_str(), scripts, config_path, chunk_name);
                proof {
                    let now = scripts.log();
                    let act = seq![Act::Run { form: Form::Text, code: e@, chunk: chunk_name@ }];
                    lemma_extends_agree(before, now, act);
                    lemma_text_run(p.take(i as int), chunk_name@, before, now, from);
                    lemma_extends_twice(start, before, now, front.acts, act);
                    assert(front.acts + act =~= front.acts.push(act[0]));
                }
                if let Err(err) = done {
                    proof {
                        lemma_text_stops(p, i + 1, chunk_name@, scripts.log(), from);
                    }
                    return Err(err);
                }
            },
        }
        i += 1;
    }
    assert(p.take(i as int) == p);
    Ok(out)
}

/// Once an expression fails, nothing more is asked.
proof fn lemma_text_stops(
    p: Seq<Piece>,
    n: int,
    chunk: Seq<char>,
    log: Seq<(Act, Reply)>,
    from: int,
)
    requires
        0 <= n <= p.len(),
        text_run(p.take(n), chunk, log, from).end is Err,
    ensures
        text_run(p, chunk, log, from) == text_run(p.take(n), chunk, log, from),
    decreases p.len() - n,
{
    if n < p.len() {
        assert(p.take(n + 1).drop_last() == p.take(n));
        lemma_text_stops(p, n + 1, chunk, log, from);
    } else {
        assert(p.take(n) == p);
    }
}

/// Lets scripts see a context.
pub fn prepare_env<S: Scripts>(
    scripts: &mut S,
    ctx: &EvalContext,
    open: bool,
    config_path: &str,
) -> (r: Result<(), DaemonError>)
    ensures
        extends(old(scripts).log(), final(scripts).log(), seq![build_act(*ctx, open)]),
        match final(scripts).log().last().1 {
            Reply::Value(_) => r is Ok,
            Reply::Fault(m) => r matches Err(e) && reports(e, config_path@, build_fault(m)),
        },
{
    match scripts.perform(Order::Build { ctx, open }) {
        Ok(_) => Ok(()),
        Err(m) => Err(
            lua_error(config_path, concat("Error building Lua environment: ", m.as_str())),
        ),
    }
}

/// Lets scripts see a context, if they do not see it yet.
pub fn get_or_build_env<S: Scripts>(
    scripts: &mut S,
    ctx: &EvalContext,
    config_path: &str,
    built: &mut bool,
) -> (r: Result<(), DaemonError>)
    ensures
        *old(built) ==> r is Ok && *final(built) && final(scripts).log() == old(scripts).log(),
        !*old(built) ==> extends(
            old(scripts).log(),
            final(scripts).log(),
            seq![build_act(*ctx, false)],
        ),
        !*old(built) ==> match final(scripts).log().last().1 {
            Reply::Value(_) => r is Ok && *final(built),
            Reply::Fault(m) => !*final(built) && (r matches Err(e) && reports(
                e,
                config_path@,
                build_fault(m),
            )),
        },
{
    if !*built {
        prepare_env(scripts, ctx, false, config_path)?;
        *built = true;
    }
    Ok(())
}

/// Fills a text with what its expressions give in a context.
pub fn evaluate_expression_string<S: Scripts>(
    s: &str,
    scripts: &mut S,
    ctx: &EvalContext,
    config_path: &str,
    chunk_name: &str,
) -> (r: Result<String, DaemonError>)
    ensures
        ({
            let from = old(scripts).log().len() as int;
            let log = final(scripts).log();
            match log[from].1 {
                Reply::Fault(m) => extends(
                    old(scripts).log(),
                    log,
                    seq![build_act(*ctx, false)],
                ) && (r matches Err(e) && reports(e, config_path@, build_fault(m))),
                Reply::Value(_) => {
                    let run = text_run(pieces_of(s@), chunk_name@, log, from + 1);
                    &&& extends(old(scripts).log(), log, seq![build_act(*ctx, false)] + run.acts)
                    &&& match r {
                        Ok(t) => run.end == Ok::<Seq<char>, Fault>(t@),
                        Err(e) => run.end matches Err(f) && reports(e, config_path@, f),
                    }
                },
            }
        }),
{
    let ghost start = scripts.log();
    prepare_env(scripts, ctx, false, config_path)?;
    let ghost middle = scripts.log();
    let r = evaluate_tokens_to_string(s, scripts, config_path, chunk_name);
    proof {
        let run = text_run(pieces_of(s@), chunk_name@, scripts.log(), middle.len() as int);
        lemma_extends_twice(start, middle, scripts.log(), seq![build_act(*ctx, false)], run.acts);
        assert(scripts.log()[start.len() as int] == middle[start.len() as int]);
    }
    r
}

/// Fills a text with what its expressions give in the context that scripts see.
pub fn evaluate_expression_string_with_env<S: Scripts>(
    s: &str,
    scripts: &mut S,
    config_path: &str,
    chunk_name: &str,
) -> (r: Result<String, DaemonError>)
    ensures
        ({
            let run = text_run(
                pieces_of(s@),
                chunk_name@,
                final(scripts).log(),
                old(scripts).log().len() as int,
            );
            &&& extends(old(scripts).log(), final(scripts).log(), run.acts)
            &&& match r {
                Ok(t) => run.end == Ok::<Seq<char>, Fault>(t@),
                Err(e) => run.end matches Err(f) && reports(e, config_path@, f),
            }
        }),
{
    evaluate_tokens_to_string(s, scripts, config_path, chunk_name)
}

/// Whether a result is what a run ends with.
pub open spec fn ends_with(r: Result<Yaml, DaemonError>, path: Seq<char>, end: Result<Tree, Fault>) -> bool {
    match r {
        Ok(v) => end == Ok::<Tree, Fault>(v@),
        Err(e) => end matches Err(f) && reports(e, path, f),
    }
}

impl DynamicExpr {
    /// Computes the value in the context that scripts see.
    pub fn evaluate<S: Scripts>(
        &self,
        scripts: &mut S,
        config_path: &str,
        field_path: &str,
    ) -> (r: Result<Yaml, DaemonError>)
        ensures
            ({
                let run = expr_run(
                    self@,
                    field_path@,
                    final(scripts).log(),
                    old(scripts).log().len() as int,
                );
                &&& extends(old(scripts).log(), final(scripts).log(), run.acts)
                &&& ends_with(r, config_path@, run.end)
            }),
    {
        match self {
            DynamicExpr::Expression(e) => match scripts.perform(
                Order::Run { form: Form::Value, code: e.as_str(), chunk: field_path },
            ) {
                Ok(v) => lua_to_yaml(&v, config_path),
                Err(m) => Err(expression_error(config_path, e.as_str(), m.as_str())),
            },
            DynamicExpr::Interpolated(tokens) => {
                let mut out: String = String::new();
                let ghost p = owned_pieces(tokens@);
                let ghost start = scripts.log();
                let ghost from = start.len() as int;
                let mut i: usize = 0;
                assert(p.take(0) == Seq::<Piece>::empty());
                assert(out@ == Seq::<char>::empty());
                while i < tokens.len()
                    invariant
                        i <= tokens@.len(),
                        p == owned_pieces(tokens@),
                        self@ == Computed::Interpolated(p),
                        from == start.len(),
                        extends(
                            start,
                            scripts.log(),
                            text_run(p.take(i as int), field_path@, scripts.log(), from).acts,
                        ),
                        text_run(p.take(i as int), field_path@, scripts.log(), from).end == Ok::<
                            Seq<char>,
                            Fault,
                        >(out@),
                        start == old(scripts).log(),
                    decreases tokens@.len() - i,
                {
                    assert(p.take(i + 1).drop_last() == p.take(i as int));
                    assert(p.take(i + 1).last() == tokens@[i as int]@);
                    let ghost before = scripts.log();
                    let ghost front = text_run(p.take(i as int), field_path@, before, from);
                    match &tokens[i] {
                        OwnedExprToken::Literal(t) => {
                            out.append(t.as_str());
                        },
                        OwnedExprToken::Expression(e) => {
                            let done = push_result(
                                &mut out,
                                e.as_str(),
                                scripts,
                                config_path,
                                field_path,
                            );
                            proof {
                                let now = scripts.log();
                                let act = seq![
                                    Act::Run { form: Form::Text, code: e@, chunk: field_path@ },
                                ];
                                lemma_extends_agree(before, now, act);
                                lemma_text_run(p.take(i as int), field_path@, before, now, from);
                                lemma_extends_twice(start, before, now, front.acts, act);
                                assert(front.acts + act =~= front.acts.push(act[0]));
                            }
                            if let Err(err) = done {
                                proof {
                                    lemma_text_stops(p, i + 1, field_path@, scripts.log(), from);
                                }
                                return Err(err);
                            }
                        },
                    }
                    i += 1;
                }
                assert(p.take(i as int) == p);
                Ok(Yaml::String(out))
            },
            DynamicExpr::Lua(code) => match scripts.perform(
                Order::Run { form: Form::Block, code: code.as_str(), chunk: field_path },
            ) {
                Ok(v) => lua_to_yaml(&v, config_path),
                Err(m) => Err(lua_error(config_path, concat("Lua error: ", m.as_str()))),
            },
        }
    }
}

/// Lets scripts see the context, if they do not see it yet, and computes a value.
pub(crate) fn evaluate_leaf<S: Scripts>(
    expr: &DynamicExpr,
    scripts: &mut S,
    ctx: &EvalContext,
    config_path: &str,
    field_path: &str,
    built: &mut bool,
) -> (r: Result<Yaml, DaemonError>)
    ensures
        ({
            let run = leaf_run(
                expr@,
                field_path@,
                *old(built),
                build_act(*ctx, false),
                final(scripts).log(),
                old(scripts).log().len() as int,
            );
            &&& extends(old(scripts).log(), final(scripts).log(), run.acts)
            &&& *final(built) == run.built
            &&& ends_with(r, config_path@, run.end)
        }),
{
    let ghost start = scripts.log();
    let ghost was_built = *built;
    get_or_build_env(scripts, ctx, config_path, built)?;
    let ghost middle = scripts.log();
    let r = expr.evaluate(scripts, config_path, field_path);
    proof {
        let now = scripts.log();
        let run = expr_run(expr@, field_path@, now, middle.len() as int);
        if !was_built {
            lemma_extends_twice(start, middle, now, seq![build_act(*ctx, false)], run.acts);
            assert(now[start.len() as int] == middle[start.len() as int]);
        }
    }
    r
}

/// The path of the value of a key.
fn path_of_child(path: &str, key: &Yaml) -> (r: String)
    ensures
        r@ == child_path(path@, key@),
{
    match key.as_str() {
        Some(k) => if path.unicode_len() == 0 {
            k.to_owned()
        } else {
            concat3(path, ".", k)
        },
        None => path.to_owned(),
    }
}

/// Whether the code in the value of a key is left for later.
fn key_is_deferred(key: &Yaml) -> (r: bool)
    ensures
        r == is_deferred(key@),
{
    match key.as_str() {
        Some(k) => same(k, "depends_on") || same(k, "outputs"),
        None => false,
    }
}

/// Computes the parts of a tree that are written as code, and gives what stands in its place.
fn evaluate_value_tree_inner<S: Scripts>(
    value: &Yaml,
    scripts: &mut S,
    ctx: &EvalContext,
    config_path: &str,
    field_path: &str,
    deferred: bool,
    built: &mut bool,
) -> (r: (Yaml, Result<(), DaemonError>))
    ensures
        ({
            let run = tree_run(
                value@,
                field_path@,
                deferred,
                *old(built),
                build_act(*ctx, false),
                final(scripts).log(),
                old(scripts).log().len() as int,
            );
            &&& extends(old(scripts).log(), final(scripts).log(), run.acts)
            &&& *final(built) == run.built
            &&& r.0@ == tree_left(
                value@,
                field_path@,
                deferred,
                *old(built),
                build_act(*ctx, false),
                final(scripts).log(),
                old(scripts).log().len() as int,
            )
            &&& match r.1 {
                Ok(_) => run.end == Ok::<Tree, Fault>(r.0@),
                Err(e) => run.end matches Err(f) && reports(e, config_path@, f),
            }
        }),
    decreases value,
{
    broadcast use lemma_tree_parts;

    let ghost build = build_act(*ctx, false);
    let ghost start = scripts.log();
    let ghost from = start.len() as int;
    let ghost built0 = *built;
    if deferred {
        return (value.copy(), Ok(()));
    }
    match value {
        Yaml::String(s) => {
            if contains(s.as_str(), "${{") {
                match DynamicExpr::classify(value) {
                    Some(expr) => match evaluate_leaf(
                        &expr,
                        scripts,
                        ctx,
                        config_path,
                        field_path,
                        built,
                    ) {
                        Ok(v) => (v, Ok(())),
                        Err(e) => (value.copy(), Err(e)),
                    },
                    None => (value.copy(), Ok(())),
                }
            } else {
                (value.copy(), Ok(()))
            }
        },
        Yaml::Tagged { tag, value: inner } => {
            if same(tag.as_str(), "lua") {
                match inner.as_str() {
                    Some(code) => match evaluate_leaf(
                        &DynamicExpr::Lua(code.to_owned()),
                        scripts,
                        ctx,
                        config_path,
                        field_path,
                        built,
                    ) {
                        Ok(v) => (v, Ok(())),
                        Err(e) => (value.copy(), Err(e)),
                    },
                    None => {
                        let e = lua_error(config_path, "!lua value must be a string".to_owned());
                        (value.copy(), Err(e))
                    },
                }
            } else {
                let (v, r) = evaluate_value_tree_inner(
                    &**inner,
                    scripts,
                    ctx,
                    config_path,
                    field_path,
                    deferred,
                    built,
                );
                (Yaml::Tagged { tag: tag.clone(), value: Box::new(v) }, r)
            }
        },
        Yaml::Sequence(items) => {
            let mut out: Vec<Yaml> = Vec::new();
            let ghost all = trees(items@);
            let mut i: usize = 0;
            assert(trees(out@) == Seq::<Tree>::empty());
            while i < items.len()
                invariant
                    i <= items@.len(),
                    all == trees(items@),
                    value@ == Tree::Sequence(all),
                    !deferred,
                    start == old(scripts).log(),
                    from == start.len(),
                    built0 == *old(built),
                    build == build_act(*ctx, false),
                    decreases_to!(value => items@),
                    ({
                        let run = items_run(
                            all,
                            i as nat,
                            field_path@,
                            deferred,
                            built0,
                            build,
                            scripts.log(),
                            from,
                        );
                        &&& extends(start, scripts.log(), run.acts)
                        &&& *built == run.built
                        &&& run.end == Ok::<Seq<Tree>, Fault>(trees(out@))
                        &&& trees(out@) == items_left(
                            all,
                            i as nat,
                            field_path@,
                            deferred,
                            built0,
                            build,
                            scripts.log(),
                            from,
                        )
                    }),
                decreases items@.len() - i,
            {
                let ghost before = scripts.log();
                let ghost done = trees(out@);
                let ghost front = items_run(
                    all,
                    i as nat,
                    field_path@,
                    deferred,
                    built0,
                    build,
                    before,
                    from,
                );
                assert(all[i as int] == items@[i as int]@);
                assert(decreases_to!(value => items@[i as int]));
                let (v, r) = evaluate_value_tree_inner(
                    &items[i],
                    scripts,
                    ctx,
                    config_path,
                    field_path,
                    deferred,
                    built,
                );
                proof {
                    let now = scripts.log();
                    let run = tree_run(
                        all[i as int],
                        field_path@,
                        deferred,
                        front.built,
                        build,
                        now,
                        before.len() as int,
                    );
                    lemma_extends_agree(before, now, run.acts);
                    lemma_items_run(
                        all,
                        i as nat,
                        field_path@,
                        deferred,
                        built0,
                        build,
                        before,
                        now,
                        from,
                    );
                    lemma_items_left(
                        all,
                        i as nat,
                        field_path@,
                        deferred,
                        built0,
                        build,
                        before,
                        now,
                        from,
                    );
                    lemma_extends_twice(start, before, now, front.acts, run.acts);
                }
                out.push(v);
                assert(trees(out@) == done.push(v@));
                i += 1;
                if let Err(e) = r {
                    let ghost log = scripts.log();
                    proof {
                        lemma_items_stop(
                            all,
                            i as nat,
                            field_path@,
                            deferred,
                            built0,
                            build,
                            log,
                            from,
                        );
                    }
                    let ghost whole = items_run(
                        all,
                        all.len(),
                        field_path@,
                        deferred,
                        built0,
                        build,
                        log,
                        from,
                    );
                    while i < items.len()
                        invariant
                            i <= items@.len(),
                            all == trees(items@),
                            value@ == Tree::Sequence(all),
                            start == old(scripts).log(),
                            from == start.len(),
                            built0 == *old(built),
                            build == build_act(*ctx, false),
                            log == scripts.log(),
                            !deferred,
                            extends(start, log, whole.acts),
                            *built == whole.built,
                            whole.end matches Err(f) && reports(e, config_path@, f),
                            whole == items_run(
                                all,
                                all.len(),
                                field_path@,
                                deferred,
                                built0,
                                build,
                                log,
                                from,
                            ),
                            items_run(
                                all,
                                i as nat,
                                field_path@,
                                deferred,
                                built0,
                                build,
                                log,
                                from,
                            ).end is Err,
                            trees(out@) == items_left(
                                all,
                                i as nat,
                                field_path@,
                                deferred,
                                built0,
                                build,
                                log,
                                from,
                            ),
                        decreases items@.len() - i,
                    {
                        let ghost so_far = trees(out@);
                        let rest = items[i].copy();
                        assert(all[i as int] == items@[i as int]@);
                        out.push(rest);
                        assert(trees(out@) == so_far.push(rest@));
                        i += 1;
                    }
                    let left = Yaml::Sequence(out);
                    proof {
                        lemma_tree_parts(left);
                    }
                    return (left, Err(e));
                }
            }
            (Yaml::Sequence(out), Ok(()))
        },
        Yaml::Mapping(entries) => {
            let mut out: Vec<(Yaml, Yaml)> = Vec::new();
            let ghost all = entry_trees(entries@);
            let mut i: usize = 0;
            assert(entry_trees(out@) == Seq::<(Tree, Tree)>::empty());
            while i < entries.len()
                invariant
                    i <= entries@.len(),
                    all == entry_trees(entries@),
                    value@ == Tree::Mapping(all),
                    !deferred,
                    start == old(scripts).log(),
                    from == start.len(),
                    built0 == *old(built),
                    build == build_act(*ctx, false),
                    decreases_to!(value => entries@),
                    ({
                        let run = entries_run(
                            all,
                            i as nat,
                            field_path@,
                            built0,
                            build,
                            scripts.log(),
                            from,
                        );
                        &&& extends(start, scripts.log(), run.acts)
                        &&& *built == run.built
                        &&& run.end == Ok::<Seq<(Tree, Tree)>, Fault>(entry_trees(out@))
                        &&& entry_trees(out@) == entries_left(
                            all,
                            i as nat,
                            field_path@,
                            built0,
                            build,
                            scripts.log(),
                            from,
                        )
                    }),
                decreases entries@.len() - i,
            {
                let ghost before = scripts.log();
                let ghost done = entry_trees(out@);
                let ghost front = entries_run(
                    all,
                    i as nat,
                    field_path@,
                    built0,
                    build,
                    before,
                    from,
                );
                assert(all[i as int] == (entries@[i as int].0@, entries@[i as int].1@));
                assert(decreases_to!(value => entries@[i as int].1));
                let path = path_of_child(field_path, &entries[i].0);
                let later = key_is_deferred(&entries[i].0);
                let (v, r) = evaluate_value_tree_inner(
                    &entries[i].1,
                    scripts,
                    ctx,
                    config_path,
                    path.as_str(),
                    later,
                    built,
                );
                proof {
                    let now = scripts.log();
                    let run = tree_run(
                        all[i as int].1,
                        path@,
                        later,
                        front.built,
                        build,
                        now,
                        before.len() as int,
                    );
                    lemma_extends_agree(before, now, run.acts);
                    lemma_entries_run(
                        all,
                        i as nat,
                        field_path@,
                        built0,
                        build,
                        before,
                        now,
                        from,
                    );
                    lemma_entries_left(
                        all,
                        i as nat,
                        field_path@,
                        built0,
                        build,
                        before,
                        now,
                        from,
                    );
                    lemma_extends_twice(start, before, now, front.acts, run.acts);
                }
                let key = entries[i].0.copy();
                out.push((key, v));
                assert(entry_trees(out@) == done.push((key@, v@)));
                i += 1;
                if let Err(e) = r {
                    let ghost log = scripts.log();
                    proof {
                        lemma_entries_stop(all, i as nat, field_path@, built0, build, log, from);
                    }
                    let ghost whole = entries_run(
                        all,
                        all.len(),
                        field_path@,
                        built0,
                        build,
                        log,
                        from,
                    );
                    while i < entries.len()
                        invariant
                            i <= entries@.len(),
                            all == entry_trees(entries@),
                            value@ == Tree::Mapping(all),
                            start == old(scripts).log(),
                            from == start.len(),
                            built0 == *old(built),
                            build == build_act(*ctx, false),
                            log == scripts.log(),
                            !deferred,
                            extends(start, log, whole.acts),
                            *built == whole.built,
                            whole.end matches Err(f) && reports(e, config_path@, f),
                            whole == entries_run(
                                all,
                                all.len(),
                                field_path@,
                                built0,
                                build,
                                log,
                                from,
                            ),
                            entries_run(
                                all,
                                i as nat,
                                field_path@,
                                built0,
                                build,
                                log,
                                from,
                            ).end is Err,
                            entry_trees(out@) == entries_left(
                                all,
                                i as nat,
                                field_path@,
                                built0,
                                build,
                                log,
                                from,
                            ),
                        decreases entries@.len() - i,
                    {
                        let ghost so_far = entry_trees(out@);
                        let key = entries[i].0.copy();
                        let rest = entries[i].1.copy();
                        assert(all[i as int] == (entries@[i as int].0@, entries@[i as int].1@));
                        out.push((key, rest));
                        assert(entry_trees(out@) == so_far.push((key@, rest@)));
                        i += 1;
                    }
                    let left = Yaml::Mapping(out);
                    proof {
                        lemma_tree_parts(left);
                    }
                    return (left, Err(e));
                }
            }
            (Yaml::Mapping(out), Ok(()))
        },
        _ => (value.copy(), Ok(())),
    }
}

/// Once an item fails, nothing more is asked.
proof fn lemma_items_stop(
    items: Seq<Tree>,
    n: nat,
    path: Seq<char>,
    deferred: bool,
    built: bool,
    build: Act,
    log: Seq<(Act, Reply)>,
    from: int,
)
    requires
        n <= items.len(),
        items_run(items, n, path, deferred, built, build, log, from).end is Err,
    ensures
        items_run(items, items.len(), path, deferred, built, build, log, from) == items_run(
            items,
            n,
            path,
            deferred,
            built,
            build,
            log,
            from,
        ),
    decreases items.len() - n,
{
    if n < items.len() {
        lemma_items_stop(items, n + 1, path, deferred, built, build, log, from);
    }
}

/// Once an entry fails, nothing more is asked.
proof fn lemma_entries_stop(
    entries: Seq<(Tree, Tree)>,
    n: nat,
    path: Seq<char>,
    built: bool,
    build: Act,
    log: Seq<(Act, Reply)>,
    from: int,
)
    requires
        n <= entries.len(),
        entries_run(entries, n, path, built, build, log, from).end is Err,
    ensures
        entries_run(entries, entries.len(), path, built, build, log, from) == entries_run(
            entries,
            n,
            path,
            built,
            build,
            log,
            from,
        ),
    decreases entries.len() - n,
{
    if n < entries.len() {
        lemma_entries_stop(entries, n + 1, path, built, build, log, from);
    }
}

/// Computes the parts of a tree that are written as code; scripts see the context from the first
/// such part on. If one of them fails, those before it are replaced already.
pub fn evaluate_value_tree<S: Scripts>(
    value: &mut Yaml,
    scripts: &mut S,
    ctx: &EvalContext,
    config_path: &str,
    field_path: &str,
) -> (r: Result<(), DaemonError>)
    ensures
        ({
            let run = tree_run(
                old(value)@,
                field_path@,
                false,
                false,
                build_act(*ctx, false),
                final(scripts).log(),
                old(scripts).log().len() as int,
            );
            &&& extends(old(scripts).log(), final(scripts).log(), run.acts)
            &&& match r {
                Ok(_) => run.end == Ok::<Tree, Fault>(final(value)@),
                Err(e) => run.end matches Err(f) && reports(e, config_path@, f),
            }
            &&& final(value)@ == tree_left(
                old(value)@,
                field_path@,
                false,
                false,
                build_act(*ctx, false),
                final(scripts).log(),
                old(scripts).log().len() as int,
            )
        }),
{
    let mut built = false;
    evaluate_value_tree_with_env(value, scripts, ctx, config_path, field_path, &mut built)
}

/// Computes the parts of a tree that are written as code; `built` says whether scripts see the
/// context already, and is set once they do.
pub fn evaluate_value_tree_with_env<S: Scripts>(
    value: &mut Yaml,
    scripts: &mut S,
    ctx: &EvalContext,
    config_path: &str,
    field_path: &str,
    built: &mut bool,
) -> (r: Result<(), DaemonError>)
    ensures
        ({
            let run = tree_run(
                old(value)@,
                field_path@,
                false,
                *old(built),
                build_act(*ctx, false),
                final(scripts).log(),
                old(scripts).log().len() as int,
            );
            &&& extends(old(scripts).log(), final(scripts).log(), run.acts)
            &&& *final(built) == run.built
            &&& match r {
                Ok(_) => run.end == Ok::<Tree, Fault>(final(value)@),
                Err(e) => run.end matches Err(f) && reports(e, config_path@, f),
            }
            &&& final(value)@ == tree_left(
                old(value)@,
                field_path@,
                false,
                *old(built),
                build_act(*ctx, false),
                final(scripts).log(),
                old(scripts).log().len() as int,
            )
        }),
{
    let (left, r) = evaluate_value_tree_inner(
        &*value,
        scripts,
        ctx,
        config_path,
        field_path,
        false,
        built,
    );
    *value = left;
    r
}

/// Whether a tree has a part that is written as code and is computed.
pub open spec fn has_code(t: Tree, deferred: bool) -> bool
    decreases t,
{
    !deferred && match t {
        Tree::Text(s) => occurs(s, "${{"@),
        Tree::Tagged(tag, inner) => tag == "lua"@ || has_code(*inner, deferred),
        Tree::Sequence(items) => exists|i: int|
            0 <= i < items.len() && has_code(#[trigger] items[i], deferred),
        Tree::Mapping(entries) => exists|i: int|
            0 <= i < entries.len() && has_code(
                (#[trigger] entries[i]).1,
                is_deferred(entries[i].0),
            ),
        _ => false,
    }
}

/// A tree without code is kept as it is, and nothing is asked of the interpreter for it. What
/// stands under `depends_on` and `outputs`, at any depth, is no code here.
pub proof fn law_tree_without_code_kept(
    t: Tree,
    path: Seq<char>,
    deferred: bool,
    built: bool,
    build: Act,
    log: Seq<(Act, Reply)>,
    from: int,
)
    requires
        !has_code(t, deferred),
    ensures
        tree_run(t, path, deferred, built, build, log, from) == (TreeRun {
            acts: Seq::<Act>::empty(),
            built,
            end: Ok::<Tree, Fault>(t),
        }),
    decreases t, 0nat,
{
    match t {
        _ if deferred => {},
        Tree::Tagged(_, inner) => {
            law_tree_without_code_kept(*inner, path, deferred, built, build, log, from);
        },
        Tree::Sequence(items) => {
            lemma_plain_items(items, items.len(), path, deferred, built, build, log, from);
            assert(items.take(items.len() as int) =~= items);
        },
        Tree::Mapping(entries) => {
            lemma_plain_entries(entries, entries.len(), path, built, build, log, from);
            assert(entries.take(entries.len() as int) =~= entries);
        },
        _ => {},
    }
}

proof fn lemma_plain_items(
    items: Seq<Tree>,
    n: nat,
    path: Seq<char>,
    deferred: bool,
    built: bool,
    build: Act,
    log: Seq<(Act, Reply)>,
    from: int,
)
    requires
        n <= items.len(),
        forall|i: int| 0 <= i < items.len() ==> !has_code(#[trigger] items[i], deferred),
    ensures
        items_run(items, n, path, deferred, built, build, log, from) == (TreeRun {
            acts: Seq::<Act>::empty(),
            built,
            end: Ok::<Seq<Tree>, Fault>(items.take(n as int)),
        }),
    decreases items, n,
{
    if n > 0 {
        lemma_plain_items(items, (n - 1) as nat, path, deferred, built, build, log, from);
        law_tree_without_code_kept(items[n - 1], path, deferred, built, build, log, from);
        assert(items.take(n - 1).push(items[n - 1]) =~= items.take(n as int));
        assert(Seq::<Act>::empty() + Seq::<Act>::empty() =~= Seq::<Act>::empty());
    } else {
        assert(items.take(0) =~= Seq::<Tree>::empty());
    }
}

proof fn lemma_plain_entries(
    entries: Seq<(Tree, Tree)>,
    n: nat,
    path: Seq<char>,
    built: bool,
    build: Act,
    log: Seq<(Act, Reply)>,
    from: int,
)
    requires
        n <= entries.len(),
        forall|i: int|
            0 <= i < entries.len() ==> !has_code(
                (#[trigger] entries[i]).1,
                is_deferred(entries[i].0),
            ),
    ensures
        entries_run(entries, n, path, built, build, log, from) == (TreeRun {
            acts: Seq::<Act>::empty(),
            built,
            end: Ok::<Seq<(Tree, Tree)>, Fault>(entries.take(n as int)),
        }),
    decreases entries, n,
{
    if n > 0 {
        let (key, value) = entries[n - 1];
        lemma_plain_entries(entries, (n - 1) as nat, path, built, build, log, from);
        law_tree_without_code_kept(
            value,
            child_path(path, key),
            is_deferred(key),
            built,
            build,
            log,
            from,
        );
        assert(entries.take(n - 1).push((key, value)) =~= entries.take(n as int));
        assert(Seq::<Act>::empty() + Seq::<Act>::empty() =~= Seq::<Act>::empty());
    } else {
        assert(entries.take(0) =~= Seq::<(Tree, Tree)>::empty());
    }
}

} // verus!
