use vstd::prelude::*;

use crate::ast::{Expr, ExprModel};
use crate::env::Environment;
use crate::error::{Error, EvalErrorKind, EvalErrorModel};

verus! {

/// What evaluating an expression against an environment yields: the value or
/// the failure, together with the environment after every side effect that
/// happened before the outcome.  Children are evaluated before their parent,
/// left before right; an assignment evaluates its value first and then
/// requires its target to be a variable reference; a failure keeps the
/// side effects of the sub-evaluations already completed.
pub open spec fn spec_eval(e: ExprModel, env: Map<Seq<char>, int>) -> (Result<
    int,
    EvalErrorModel,
>, Map<Seq<char>, int>)
    decreases e,
{
    match e {
        ExprModel::Number(n) => (Ok(n), env),
        ExprModel::Variable(name) => if env.dom().contains(name) {
            (Ok(env[name]), env)
        } else {
            (Err(EvalErrorModel::UnboundVariable(name)), env)
        },
        ExprModel::Assign(location, value) => {
            let (vres, env1) = spec_eval(*value, env);
            match vres {
                Ok(v) => match *location {
                    ExprModel::Variable(name) => (Ok(v), env1.insert(name, v)),
                    _ => (Err(EvalErrorModel::InvalidAssignmentTarget), env1),
                },
                Err(err) => (Err(err), env1),
            }
        },
        ExprModel::Add(left, right) => {
            let (lres, env1) = spec_eval(*left, env);
            match lres {
                Ok(a) => {
                    let (rres, env2) = spec_eval(*right, env1);
                    match rres {
                        Ok(b) => if i32::MIN <= a + b <= i32::MAX {
                            (Ok(a + b), env2)
                        } else {
                            (Err(EvalErrorModel::Overflow), env2)
                        },
                        Err(err) => (Err(err), env2),
                    }
                },
                Err(err) => (Err(err), env1),
            }
        },
        ExprModel::Minus(left, right) => {
            let (lres, env1) = spec_eval(*left, env);
            match lres {
                Ok(a) => {
                    let (rres, env2) = spec_eval(*right, env1);
                    match rres {
                        Ok(b) => if i32::MIN <= a - b <= i32::MAX {
                            (Ok(a - b), env2)
                        } else {
                            (Err(EvalErrorModel::Overflow), env2)
                        },
                        Err(err) => (Err(err), env2),
                    }
                },
                Err(err) => (Err(err), env1),
            }
        },
        ExprModel::Mul(left, right) => {
            let (lres, env1) = spec_eval(*left, env);
            match lres {
                Ok(a) => {
                    let (rres, env2) = spec_eval(*right, env1);
                    match rres {
                        Ok(b) => if i32::MIN <= a * b <= i32::MAX {
                            (Ok(a * b), env2)
                        } else {
                            (Err(EvalErrorModel::Overflow), env2)
                        },
                        Err(err) => (Err(err), env2),
                    }
                },
                Err(err) => (Err(err), env1),
            }
        },
    }
}

/// Evaluates an expression tree against the environment by a post-order
/// walk.  Only assignments mutate the environment; arithmetic whose result
/// leaves the `i32` range fails rather than wrapping, and an assignment
/// returns the value freshly looked up after binding it.
pub fn evaluate(expr: &Expr, env: &mut Environment) -> (r: Result<i32, Error>)
    ensures
        ({
            let (sres, senv) = spec_eval(expr@, old(env)@);
            final(env)@ == senv && match r {
                Ok(v) => sres == Ok::<int, EvalErrorModel>(v as int),
                Err(e) => e matches Error::EvalError(k) && sres == Err::<int, EvalErrorModel>(k@),
            }
        }),
    decreases expr,
{
    match expr {
        Expr::Number { n } => Ok(*n),
        Expr::Variable { name } => match env.lookup(name.as_str()) {
            Some(v) => Ok(v),
            None => Err(Error::EvalError(EvalErrorKind::UnboundVariable(name.clone()))),
        },
        Expr::Assign { location, value } => {
            let v = match evaluate(value, env) {
                Ok(v) => v,
                Err(err) => {
                    return Err(err);
                },
            };
            match &**location {
                Expr::Variable { name } => {
                    env.assign(name.as_str(), v);
                    proof {
                        assert((&**location)@ == ExprModel::Variable(name@));
                    }
                    match env.lookup(name.as_str()) {
                        Some(stored) => Ok(stored),
                        None => unreached(),
                    }
                },
                _ => {
                    proof {
                        crate::ast::lemma_model_of_variable(**location);
                    }
                    Err(Error::EvalError(EvalErrorKind::InvalidAssignmentTarget))
                },
            }
        },
        Expr::Add { left, right } => {
            let a = match evaluate(left, env) {
                Ok(v) => v,
                Err(err) => {
                    return Err(err);
                },
            };
            let b = match evaluate(right, env) {
                Ok(v) => v,
                Err(err) => {
                    return Err(err);
                },
            };
            let sum: i64 = a as i64 + b as i64;
            if i32::MIN as i64 <= sum && sum <= i32::MAX as i64 {
                Ok(sum as i32)
            } else {
                Err(Error::EvalError(EvalErrorKind::Overflow))
            }
        },
        Expr::Minus { left, right } => {
            let a = match evaluate(left, env) {
                Ok(v) => v,
                Err(err) => {
                    return Err(err);
                },
            };
            let b = match evaluate(right, env) {
                Ok(v) => v,
                Err(err) => {
                    return Err(err);
                },
            };
            let diff: i64 = a as i64 - b as i64;
            if i32::MIN as i64 <= diff && diff <= i32::MAX as i64 {
                Ok(diff as i32)
            } else {
                Err(Error::EvalError(EvalErrorKind::Overflow))
            }
        },
        Expr::Mul { left, right } => {
            let a = match evaluate(left, env) {
                Ok(v) => v,
                Err(err) => {
                    return Err(err);
                },
            };
            let b = match evaluate(right, env) {
                Ok(v) => v,
                Err(err) => {
                    return Err(err);
                },
            };
            proof {
                assert((a as int) * (b as int) <= 0x4000000000000000 && (a as int) * (b as int)
                    >= -0x4000000000000000) by (nonlinear_arith)
                    requires
                        -0x80000000 <= a as int <= 0x7fffffff,
                        -0x80000000 <= b as int <= 0x7fffffff,
                {}
            }
            let prod: i64 = a as i64 * b as i64;
            if i32::MIN as i64 <= prod && prod <= i32::MAX as i64 {
                Ok(prod as i32)
            } else {
                Err(Error::EvalError(EvalErrorKind::Overflow))
            }
        },
    }
}

/// Whether the expression holds an assignment anywhere in it.
pub open spec fn has_assignment(e: ExprModel) -> bool
    decreases e,
{
    match e {
        ExprModel::Number(_) => false,
        ExprModel::Variable(_) => false,
        ExprModel::Assign(_, _) => true,
        ExprModel::Add(left, right) => has_assignment(*left) || has_assignment(*right),
        ExprModel::Minus(left, right) => has_assignment(*left) || has_assignment(*right),
        ExprModel::Mul(left, right) => has_assignment(*left) || has_assignment(*right),
    }
}

/// Law: evaluating an assignment-free expression is a pure read.  Whatever
/// the outcome, the environment afterwards is the one it started with, so
/// repeating such an evaluation yields the same outcome each time.
pub proof fn lemma_eval_pure_preserves_env(e: ExprModel, env: Map<Seq<char>, int>)
    requires
        !has_assignment(e),
    ensures
        spec_eval(e, env).1 == env,
    decreases e,
{
    match e {
        ExprModel::Add(left, right) => {
            lemma_eval_pure_preserves_env(*left, env);
            lemma_eval_pure_preserves_env(*right, spec_eval(*left, env).1);
        },
        ExprModel::Minus(left, right) => {
            lemma_eval_pure_preserves_env(*left, env);
            lemma_eval_pure_preserves_env(*right, spec_eval(*left, env).1);
        },
        ExprModel::Mul(left, right) => {
            lemma_eval_pure_preserves_env(*left, env);
            lemma_eval_pure_preserves_env(*right, spec_eval(*left, env).1);
        },
        _ => {},
    }
}

} // verus!

