//! What holds of values that are computed.
use vstd::prelude::*;
use vstd::string::*;
use crate::config::condition::eval_condition_expr;
use crate::config::config_value::ConfigValue;
use crate::config::evaluate::{
    entries_left, entries_run, evaluate_expression_string_with_env, evaluate_value_tree, expr_run,
    has_code, law_tree_without_code_kept, prepare_env, text_run, tree_left, tree_run, Fault,
};
use crate::config::expand::{literal_of, pieces_of, Piece};
use crate::config::expr::{law_expression_between_marks, DynamicExpr};
use crate::config::lua::lua_to_yaml;
use crate::config::resolve::{gives, settled};
use crate::errors::DaemonError;
use crate::lua_eval::{Act, EvalContext, Form, Reply, Scripts};
use crate::lua_value::{lua_value_to_string, LuaText, LuaValue};
use crate::text::{find_from, lemma_find_from, occurs, stands_at, trimmed};
use crate::value::{Tree, Yaml};

verus! {

/// Code is run once, as a block, under the name of its field; what it gives is the value, and a
/// fault of it is reported for the configuration.
pub proof fn law_code_is_run_once<S: Scripts>(
    code: String,
    scripts: &mut S,
    path: &str,
    field: &str,
    r: Result<Yaml, DaemonError>,
    given: LuaValue,
    y: Result<Yaml, DaemonError>,
)
    requires
        call_ensures(DynamicExpr::evaluate::<S>, (&DynamicExpr::Lua(code), scripts, path, field), r),
        call_ensures(lua_to_yaml, (&given, path), y),
    ensures
        final(scripts).log().len() == old(scripts).log().len() + 1,
        final(scripts).log().last().0 == (Act::Run {
            form: Form::Block,
            code: code@,
            chunk: field@,
        }),
        final(scripts).log().last().1 matches Reply::Fault(m) ==> (r matches Err(
            DaemonError::LuaError { path: p, message },
        ) && p@ == path@ && message@ == "Lua error: "@ + m),
        final(scripts).log().last().1 == Reply::Value(given) ==> match y {
            Ok(v) => r matches Ok(w) && w@ == v@,
            Err(_) => r is Err,
        },
{
    let e = DynamicExpr::Lua(code);
    let run = expr_run(e@, field@, final(scripts).log(), old(scripts).log().len() as int);
    assert(run.acts.len() == 1);
    assert(final(scripts).log().last() == final(scripts).log()[old(scripts).log().len() as int]);
}

/// An expression is run once, and the type of what it gives is kept; a fault of it is reported with
/// the expression.
pub proof fn law_expression_is_run_once<S: Scripts>(
    code: String,
    scripts: &mut S,
    path: &str,
    field: &str,
    r: Result<Yaml, DaemonError>,
    given: LuaValue,
    y: Result<Yaml, DaemonError>,
)
    requires
        call_ensures(
            DynamicExpr::evaluate::<S>,
            (&DynamicExpr::Expression(code), scripts, path, field),
            r,
        ),
        call_ensures(lua_to_yaml, (&given, path), y),
    ensures
        final(scripts).log().len() == old(scripts).log().len() + 1,
        final(scripts).log().last().0 == (Act::Run {
            form: Form::Value,
            code: code@,
            chunk: field@,
        }),
        final(scripts).log().last().1 matches Reply::Fault(m) ==> (r matches Err(
            DaemonError::LuaError { path: p, message },
        ) && p@ == path@ && message@ == "Error evaluating ${{ "@ + code@ + " }}$: "@ + m),
        final(scripts).log().last().1 == Reply::Value(given) ==> match y {
            Ok(v) => r matches Ok(w) && w@ == v@,
            Err(_) => r is Err,
        },
{
    let e = DynamicExpr::Expression(code);
    let run = expr_run(e@, field@, final(scripts).log(), old(scripts).log().len() as int);
    assert(run.acts.len() == 1);
    assert(final(scripts).log().last() == final(scripts).log()[old(scripts).log().len() as int]);
}

/// The pieces of a text without an opening mark.
proof fn lemma_no_mark(s: Seq<char>)
    requires
        !occurs(s, "${{"@),
    ensures
        pieces_of(s) == literal_of(s),
{
    reveal_strlit("${{");
    let start = find_from(s, "${{"@, 0);
    lemma_find_from(s, "${{"@, 0);
    if start <= s.len() {
        assert(stands_at(s, "${{"@, start));
    }
}

/// A text with an expression in it is filled with what the expression gives, as it is written
/// inside a text; what stands before and behind it is kept. The expression is run once.
pub proof fn law_text_is_filled<S: Scripts>(
    lit: Seq<char>,
    e: Seq<char>,
    rest: Seq<char>,
    s: &str,
    scripts: &mut S,
    path: &str,
    chunk: &str,
    r: Result<String, DaemonError>,
    given: LuaValue,
    shown: String,
)
    requires
        call_ensures(evaluate_expression_string_with_env::<S>, (s, scripts, path, chunk), r),
        !occurs(lit, "${{"@),
        !occurs(rest, "${{"@),
        !occurs(e, "}}$"@),
        trimmed(e) == e,
        s@ == lit + ("${{ "@ + e + " }}$"@) + rest,
        call_ensures(lua_value_to_string, (&given,), shown),
    ensures
        final(scripts).log().len() == old(scripts).log().len() + 1,
        final(scripts).log().last().0 == (Act::Run { form: Form::Text, code: e, chunk: chunk@ }),
        final(scripts).log().last().1 == Reply::Value(given) ==> (r matches Ok(t) && t@ == lit
            + shown@ + rest),
        final(scripts).log().last().1 matches Reply::Fault(m) ==> (r matches Err(
            DaemonError::LuaError { path: p, message },
        ) && p@ == path@ && message@ == "Error evaluating ${{ "@ + e + " }}$: "@ + m),
{
    let log = final(scripts).log();
    let from = old(scripts).log().len() as int;
    law_expression_between_marks(lit, e, rest, s@);
    lemma_no_mark(rest);
    let one = Piece::Expression(e);
    let p = pieces_of(s@);
    let head = literal_of(lit);
    assert(p =~= head + seq![one] + literal_of(rest));
    let front = head.push(one);
    assert(text_run(head, chunk@, log, from).end == Ok::<
        Seq<char>,
        crate::config::evaluate::Fault,
    >(lit) && text_run(head, chunk@, log, from).acts.len() == 0) by {
        reveal_with_fuel(text_run, 2);
        if lit.len() > 0 {
            assert(head.drop_last() =~= Seq::<Piece>::empty());
            assert(Seq::<char>::empty() + lit =~= lit);
        } else {
            assert(lit =~= Seq::<char>::empty());
        }
    }
    assert(front.drop_last() =~= head);
    let mid = text_run(front, chunk@, log, from);
    assert(mid.acts =~= seq![Act::Run { form: Form::Text, code: e, chunk: chunk@ }]);
    if rest.len() > 0 {
        assert(p =~= front.push(Piece::Literal(rest)));
        assert(p.drop_last() =~= front);
        assert(text_run(p, chunk@, log, from).acts =~= mid.acts);
    } else {
        assert(p =~= front);
    }
    assert(log.last() == log[from]);
    assert(lit + shown@ + Seq::<char>::empty() =~= lit + shown@);
    if rest.len() == 0 {
        assert(rest =~= Seq::<char>::empty());
    }
}

/// A text without marks stays as it is, and nothing is asked.
pub proof fn law_plain_text_is_kept<S: Scripts>(
    s: &str,
    scripts: &mut S,
    path: &str,
    chunk: &str,
    r: Result<String, DaemonError>,
)
    requires
        call_ensures(evaluate_expression_string_with_env::<S>, (s, scripts, path, chunk), r),
        !occurs(s@, "${{"@),
    ensures
        r matches Ok(t) && t@ == s@,
        final(scripts).log() == old(scripts).log(),
{
    let log = final(scripts).log();
    let from = old(scripts).log().len() as int;
    lemma_no_mark(s@);
    let p = pieces_of(s@);
    reveal_with_fuel(text_run, 2);
    if s@.len() > 0 {
        assert(p.drop_last() =~= Seq::<Piece>::empty());
        assert(Seq::<char>::empty() + s@ =~= s@);
    } else {
        assert(s@ =~= Seq::<char>::empty());
    }
    assert(log =~= old(scripts).log());
}

/// A context is shown with one order, which says whether variables may still be set; a fault of it
/// is reported for the configuration.
pub proof fn law_context_is_shown<S: Scripts>(
    scripts: &mut S,
    ctx: EvalContext,
    open: bool,
    path: &str,
    r: Result<(), DaemonError>,
)
    requires
        call_ensures(prepare_env::<S>, (scripts, &ctx, open, path), r),
    ensures
        final(scripts).log().len() == old(scripts).log().len() + 1,
        final(scripts).log().last().0 matches Act::Build { open: o, .. } && o == open,
        r is Ok <==> final(scripts).log().last().1 is Value,
        final(scripts).log().last().1 matches Reply::Fault(m) ==> (r matches Err(
            DaemonError::LuaError { path: p, message },
        ) && p@ == path@ && message@ == "Error building Lua environment: "@ + m),
{
}

/// A condition holds unless its code gives nil or false: any number, text or table lets it hold.
/// A fault is an error, never a condition that does not hold.
pub proof fn law_condition_holds_unless_nil_or_false<S: Scripts>(
    code: String,
    scripts: &mut S,
    ctx: EvalContext,
    path: &str,
    r: Result<bool, DaemonError>,
)
    requires
        call_ensures(
            eval_condition_expr::<S>,
            (&DynamicExpr::Lua(code), scripts, &ctx, path),
            r,
        ),
    ensures
        final(scripts).log().last().1 is Fault ==> (r matches Err(DaemonError::Internal(_))),
        final(scripts).log().len() == old(scripts).log().len() + 2 ==> {
            &&& final(scripts).log().last().0 == (Act::Run {
                form: Form::Block,
                code: code@,
                chunk: "if"@,
            })
            &&& final(scripts).log().last().1 matches Reply::Value(v) ==> match v {
                LuaValue::Nil => r == Ok::<bool, DaemonError>(false),
                LuaValue::Boolean(b) => r == Ok::<bool, DaemonError>(b),
                LuaValue::Integer(_) => r == Ok::<bool, DaemonError>(true),
                LuaValue::Number { .. } => r == Ok::<bool, DaemonError>(true),
                LuaValue::String(LuaText::Text(_)) => r == Ok::<bool, DaemonError>(true),
                _ => true,
            }
        },
{
    let e = DynamicExpr::Lua(code);
    let from = old(scripts).log().len() as int;
    let log = final(scripts).log();
    let run = expr_run(e@, "if"@, log, from + 1);
    assert(run.acts.len() == 1);
    if log[from].1 is Fault {
        assert(log.last() == log[from]);
    } else {
        assert(log.last() == log[from + 1]);
    }
}

/// A field that is written as code is what the code gives, as `decode` reads it. The context is
/// shown before the code runs, and the code runs once; a known field asks nothing.
pub proof fn law_computed_field_is_what_its_code_gives<
    S: Scripts,
    T: Clone,
    F: Fn(&Yaml) -> Result<T, String>,
>(
    code: String,
    scripts: &mut S,
    ctx: EvalContext,
    path: &str,
    field: &str,
    decode: F,
    r: Result<T, DaemonError>,
    given: LuaValue,
    y: Yaml,
)
    requires
        call_ensures(
            ConfigValue::<T>::resolve::<S, F>,
            (
                &ConfigValue::Dynamic(Box::new(DynamicExpr::Lua(code))),
                scripts,
                &ctx,
                path,
                field,
                &decode,
            ),
            r,
        ),
        call_ensures(lua_to_yaml, (&given, path), Ok::<Yaml, DaemonError>(y)),
        forall|a: Yaml, b: Yaml, x: Result<T, String>, z: Result<T, String>|
            a@ == b@ && #[trigger] call_ensures(decode, (&a,), x) && #[trigger] call_ensures(
                decode,
                (&b,),
                z,
            ) ==> x == z,
    ensures
        ({
            let log = final(scripts).log();
            let from = old(scripts).log().len() as int;
            &&& log.len() > from
            &&& log[from].0 is Build
            &&& log[from].1 is Fault ==> log.len() == from + 1 && r is Err
            &&& log[from].1 is Value ==> log.len() == from + 2 && log[from + 1].0 == (Act::Run {
                form: Form::Block,
                code: code@,
                chunk: field@,
            })
            &&& log[from].1 is Value && log[from + 1].1 is Fault ==> r is Err
            &&& log[from].1 is Value && log[from + 1].1 == Reply::Value(given) ==> forall|
                d: Result<T, String>,
            | #[trigger]
                call_ensures(decode, (&y,), d) ==> match d {
                    Ok(v) => r == Ok::<T, DaemonError>(v),
                    Err(m) => r matches Err(DaemonError::Config(t)) && t@ == "Failed to resolve '"@
                        + field@ + "': "@ + m@,
                }
        }),
{
    let log = final(scripts).log();
    let from = old(scripts).log().len() as int;
    let e = DynamicExpr::Lua(code);
    let build = crate::config::evaluate::build_act(ctx, false);
    let run = crate::config::evaluate::leaf_run(e@, field@, false, build, log, from);
    assert(run.acts.len() >= 1);
    assert(run.acts[0] == build);
    assert(log[from].0 == run.acts[0]);
    if log[from].1 is Value {
        assert(run.acts.len() == 2);
        assert(run.acts[1] == (Act::Run { form: Form::Block, code: code@, chunk: field@ }));
        assert(log[from + 1].0 == run.acts[1]);
        if log[from + 1].1 == Reply::Value(given) {
            assert(run.end == Ok::<Tree, crate::config::evaluate::Fault>(y@));
            assert(settled(y@, field@, path@, decode, r));
            let (w, c) = choose|w: Yaml, c: Result<T, String>| #[trigger]
                gives(decode, w, c) && w@ == y@ && match c {
                    Ok(v) => r == Ok::<T, DaemonError>(v),
                    Err(m) => r matches Err(e) && crate::config::evaluate::reports(
                        e,
                        path@,
                        crate::config::resolve::unresolved(field@, m@),
                    ),
                };
            assert forall|d: Result<T, String>| #[trigger]
                call_ensures(decode, (&y,), d) implies match d {
                Ok(v) => r == Ok::<T, DaemonError>(v),
                Err(m) => r matches Err(DaemonError::Config(t)) && t@ == "Failed to resolve '"@
                    + field@ + "': "@ + m@,
            } by {
                assert(call_ensures(decode, (&w,), c));
                assert(d == c);
            }
        }
    }
}

/// Code in a mapping runs under the path of its key, once the context is shown, and what it gives
/// stands in its place; the key stays.
pub proof fn law_code_in_a_mapping<S: Scripts>(
    value: &mut Yaml,
    scripts: &mut S,
    ctx: EvalContext,
    path: &str,
    field: &str,
    r: Result<(), DaemonError>,
    key: Seq<char>,
    code: Seq<char>,
    given: LuaValue,
    y: Yaml,
)
    requires
        call_ensures(evaluate_value_tree::<S>, (value, scripts, &ctx, path, field), r),
        old(value)@ == Tree::Mapping(
            seq![
                (
                    Tree::Text(key),
                    Tree::Tagged("lua"@, Box::new(Tree::Text(code))),
                ),
            ],
        ),
        field@.len() > 0,
        call_ensures(lua_to_yaml, (&given, path), Ok::<Yaml, DaemonError>(y)),
    ensures
        key == "depends_on"@ || key == "outputs"@ ==> r is Ok && final(scripts).log()
            == old(scripts).log() && final(value)@ == old(value)@,
        key != "depends_on"@ && key != "outputs"@ ==> {
            let log = final(scripts).log();
            let from = old(scripts).log().len() as int;
            &&& log.len() > from
            &&& log[from].0 is Build
            &&& log[from].1 is Fault ==> r is Err && final(value)@ == old(value)@
            &&& log[from].1 is Value ==> log.len() == from + 2 && log[from + 1].0 == (Act::Run {
                form: Form::Block,
                code,
                chunk: field@ + "."@ + key,
            })
            &&& log[from].1 is Value && log[from + 1].1 is Fault ==> r is Err && final(value)@
                == old(value)@
            &&& log[from].1 is Value && log[from + 1].1 == Reply::Value(given) ==> r is Ok
                && final(value)@ == Tree::Mapping(seq![(Tree::Text(key), y@)])
        },
{
    let log = final(scripts).log();
    let from = old(scripts).log().len() as int;
    let build = crate::config::evaluate::build_act(ctx, false);
    let tagged = Tree::Tagged("lua"@, Box::new(Tree::Text(code)));
    let entries = seq![(Tree::Text(key), tagged)];
    let none = Seq::<(Tree, Tree)>::empty();
    let place = field@ + "."@ + key;
    let put_off = key == "depends_on"@ || key == "outputs"@;
    assert(entries_run(entries, 0, field@, false, build, log, from).end == Ok::<
        Seq<(Tree, Tree)>,
        Fault,
    >(none));
    assert(entries_left(entries, 0, field@, false, build, log, from) =~= none);
    let leaf = tree_run(tagged, place, put_off, false, build, log, from);
    let run = entries_run(entries, 1, field@, false, build, log, from);
    assert(run.acts =~= leaf.acts);
    let left = entries_left(entries, 1, field@, false, build, log, from);
    assert(left =~= seq![
        (Tree::Text(key), tree_left(tagged, place, put_off, false, build, log, from)),
    ]);
    if put_off {
        assert(log =~= old(scripts).log());
        assert(left =~= entries);
    } else {
        assert(leaf.acts.len() >= 1);
        assert(leaf.acts[0] == build);
        assert(log[from].0 == run.acts[0]);
        if log[from].1 is Value {
            assert(leaf.acts.len() == 2);
            assert(leaf.acts[1] == (Act::Run { form: Form::Block, code, chunk: place }));
            assert(log[from + 1].0 == run.acts[1]);
        }
        if leaf.end is Err {
            assert(left =~= entries);
        }
    }
}

/// Values without code are kept at any depth, and nothing is asked for them.
pub proof fn law_values_without_code_are_kept<S: Scripts>(
    value: &mut Yaml,
    scripts: &mut S,
    ctx: EvalContext,
    path: &str,
    field: &str,
    r: Result<(), DaemonError>,
)
    requires
        call_ensures(evaluate_value_tree::<S>, (value, scripts, &ctx, path, field), r),
        !has_code(old(value)@, false),
    ensures
        r is Ok,
        final(value)@ == old(value)@,
        final(scripts).log() == old(scripts).log(),
{
    law_tree_without_code_kept(
        old(value)@,
        field@,
        false,
        false,
        crate::config::evaluate::build_act(ctx, false),
        final(scripts).log(),
        old(scripts).log().len() as int,
    );
    assert(final(scripts).log() =~= old(scripts).log());
}

/// A known field is its value, and nothing is asked for it.
pub proof fn law_known_field_asks_nothing<
    S: Scripts,
    T: Clone,
    F: Fn(&Yaml) -> Result<T, String>,
>(
    v: T,
    scripts: &mut S,
    ctx: EvalContext,
    path: &str,
    field: &str,
    decode: F,
    r: Result<T, DaemonError>,
)
    requires
        call_ensures(
            ConfigValue::<T>::resolve::<S, F>,
            (&ConfigValue::Static(v), scripts, &ctx, path, field, &decode),
            r,
        ),
    ensures
        r matches Ok(x) && cloned(v, x),
        final(scripts).log() == old(scripts).log(),
{
}

} // verus!
