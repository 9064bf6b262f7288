//! Conditions that are computed when they are needed.
use vstd::prelude::*;
use vstd::string::*;
use crate::config::evaluate::{
    build_act, build_fault, expr_run, extends, lemma_extends_twice, prepare_env, reports, Fault,
};
use crate::config::expr::DynamicExpr;
use crate::errors::{error_text, DaemonError};
use crate::lua_eval::{EvalContext, Reply, Scripts};
use crate::text::concat;
use crate::value::{lemma_tree_parts, Tree, Yaml};

verus! {

/// Whether a value counts as true: anything but null and false does.
pub open spec fn truthy(t: Tree) -> bool {
    t != Tree::Null && t != Tree::Bool(false)
}

/// Whether a value counts as true.
pub fn is_truthy(value: &Yaml) -> (r: bool)
    ensures
        r == truthy(value@),
{
    broadcast use lemma_tree_parts;

    match value {
        Yaml::Null => false,
        Yaml::Bool(b) => *b,
        _ => true,
    }
}

/// Whether an error says that a condition could not be computed.
pub open spec fn condition_failed(e: DaemonError, path: Seq<char>, f: Fault) -> bool {
    exists|inner: DaemonError| #[trigger]
        reports(inner, path, f) && (e matches DaemonError::Internal(m) && m@ == "Lua eval failed: "@
            + error_text(inner))
}

fn failed(inner: DaemonError) -> (r: DaemonError)
    ensures
        r matches DaemonError::Internal(m) && m@ == "Lua eval failed: "@ + error_text(inner),
{
    DaemonError::Internal(concat("Lua eval failed: ", inner.message().as_str()))
}

/// Computes a condition in a context.
pub fn eval_condition_expr<S: Scripts>(
    expr: &DynamicExpr,
    scripts: &mut S,
    ctx: &EvalContext,
    config_path: &str,
) -> (r: Result<bool, DaemonError>)
    ensures
        ({
            let from = old(scripts).log().len() as int;
            let log = final(scripts).log();
            match log[from].1 {
                Reply::Fault(m) => extends(
                    old(scripts).log(),
                    log,
                    seq![build_act(*ctx, false)],
                ) && (r matches Err(e) && condition_failed(e, config_path@, build_fault(m))),
                Reply::Value(_) => {
                    let run = expr_run(expr@, "if"@, log, from + 1);
                    &&& extends(old(scripts).log(), log, seq![build_act(*ctx, false)] + run.acts)
                    &&& match run.end {
                        Ok(t) => r == Ok::<bool, DaemonError>(truthy(t)),
                        Err(f) => r matches Err(e) && condition_failed(e, config_path@, f),
                    }
                },
            }
        }),
{
    let ghost start = scripts.log();
    if let Err(e) = prepare_env(scripts, ctx, false, config_path) {
        return Err(failed(e));
    }
    let ghost middle = scripts.log();
    let found = expr.evaluate(scripts, config_path, "if");
    proof {
        let run = expr_run(expr@, "if"@, scripts.log(), middle.len() as int);
        lemma_extends_twice(start, middle, scripts.log(), seq![build_act(*ctx, false)], run.acts);
        assert(scripts.log()[start.len() as int] == middle[start.len() as int]);
    }
    match found {
        Ok(value) => Ok(is_truthy(&value)),
        Err(e) => Err(failed(e)),
    }
}

/// Only null and false count as false: every number does not, not even zero, nor does any text, not
/// even an empty one, nor any list or mapping.
pub proof fn law_what_counts_as_true(v: Yaml, r: bool)
    requires
        call_ensures(is_truthy, (&v,), r),
    ensures
        match v {
            Yaml::Null => !r,
            Yaml::Bool(b) => r == b,
            Yaml::Number(_) => r,
            Yaml::String(_) => r,
            Yaml::Sequence(_) => r,
            Yaml::Mapping(_) => r,
            Yaml::Tagged { .. } => r,
        },
{
    broadcast use lemma_tree_parts;

}

} // verus!
