//! The evaluation of expressions to values.
use vstd::prelude::*;
use crate::rule::{exprs_view, lemma_exprs_view, Expr, ExprView};
use crate::scope::{lookup, ChainView, Scope};
use crate::semantics::Fail;
use crate::value::{lemma_views_of, views_of, Name, Symbol, Value, ValueView};

verus! {

/// The result of applying the function `name` to the values. No function is
/// defined yet: every call is unsupported.
pub open spec fn call_spec(name: Name, args: Seq<ValueView>) -> Result<ValueView, Fail> {
    Err(Fail::Unsupported)
}

/// The values of the expressions, in order, or the error of the first that
/// has no value.
pub open spec fn eval_all(args: Seq<ExprView>, env: ChainView) -> Result<Seq<ValueView>, Fail>
    decreases args,
{
    if args.len() == 0 {
        Ok(Seq::empty())
    } else {
        match eval_all(args.drop_last(), env) {
            Err(e) => Err(e),
            Ok(values) => match eval_spec(args.last(), env) {
                Err(e) => Err(e),
                Ok(v) => Ok(values.push(v)),
            },
        }
    }
}

/// The value of an expression: a literal is its own value, a variable has
/// the value that the chain binds to it, and a call applies the function to
/// the values of its arguments once all of them have one.
pub open spec fn eval_spec(e: ExprView, env: ChainView) -> Result<ValueView, Fail>
    decreases e,
{
    match e {
        ExprView::Value(v) => Ok(v),
        ExprView::Variable(k) => match lookup(env, k) {
            Some(v) => Ok(v),
            None => Err(Fail::UnboundVariable),
        },
        ExprView::FunctionCall(name, args) => match eval_all(args, env) {
            Err(e) => Err(e),
            Ok(values) => call_spec(name, values),
        },
    }
}

/// Applies the function `name` to the values. No function is defined yet, so
/// the result is always an error.
pub fn eval_function(name: &Symbol, args: &Vec<Value>) -> (r: Result<Value, Fail>)
    ensures
        match call_spec(name@, views_of(args@)) {
            Ok(v) => r matches Ok(x) && x@ == v,
            Err(e) => r matches Err(z) && z == e,
        },
{
    Err(Fail::Unsupported)
}

/// Evaluates the expressions in order and stops at the first that has no
/// value.
pub fn eval_values(args: &Vec<Expr>, env: &Scope) -> (r: Result<Vec<Value>, Fail>)
    requires
        env.wf(),
    ensures
        match eval_all(exprs_view(args@), env.chain()) {
            Ok(values) => r matches Ok(out) && views_of(out@) == values,
            Err(e) => r matches Err(z) && z == e,
        },
    decreases args,
{
    let ghost av = exprs_view(args@);
    proof {
        lemma_exprs_view(args@);
    }
    let mut out: Vec<Value> = Vec::new();
    let mut i: usize = 0;
    proof {
        assert(av.take(0) =~= Seq::<ExprView>::empty());
        lemma_views_of(out@);
        assert(views_of(out@) =~= Seq::<ValueView>::empty());
    }
    while i < args.len()
        invariant
            i <= args.len(),
            env.wf(),
            av == exprs_view(args@),
            av.len() == args.len(),
            forall|j: int| 0 <= j < args.len() ==> #[trigger] av[j] == args[j]@,
            eval_all(av.take(i as int), env.chain()) == Ok::<Seq<ValueView>, Fail>(views_of(out@)),
        decreases args.len() - i,
    {
        let ghost next = av.take(i + 1);
        proof {
            assert(next.drop_last() =~= av.take(i as int));
            assert(next.last() == args[i as int]@);
        }
        match eval_value(&args[i], env) {
            Ok(v) => {
                proof {
                    crate::value::lemma_views_of_push(out@, v);
                }
                out.push(v);
            },
            Err(e) => {
                proof {
                    assert(eval_all(next, env.chain()) == Err::<Seq<ValueView>, Fail>(e));
                    lemma_eval_all_prefix(av, env.chain(), i + 1);
                }
                return Err(e);
            },
        }
        i = i + 1;
    }
    proof {
        assert(av.take(args.len() as int) =~= av);
    }
    Ok(out)
}

/// An error among the first `n` expressions is the error of them all.
pub proof fn lemma_eval_all_prefix(args: Seq<ExprView>, env: ChainView, n: int)
    requires
        0 <= n <= args.len(),
        eval_all(args.take(n), env) is Err,
    ensures
        eval_all(args, env) == eval_all(args.take(n), env),
    decreases args.len() - n,
{
    if n < args.len() {
        let next = args.take(n + 1);
        assert(next.drop_last() =~= args.take(n));
        lemma_eval_all_prefix(args, env, n + 1);
    } else {
        assert(args.take(n) =~= args);
    }
}

/// Evaluates an expression in a scope.
///
/// A literal is its own value. A variable has the value that the scope
/// binds to it, and none where it is unbound. A call evaluates its arguments
/// in order, fails with the error of the first that has no value, and then
/// applies the function.
pub fn eval_value(i: &Expr, env: &Scope) -> (r: Result<Value, Fail>)
    requires
        env.wf(),
    ensures
        match eval_spec(i@, env.chain()) {
            Ok(v) => r matches Ok(x) && x@ == v,
            Err(e) => r matches Err(z) && z == e,
        },
    decreases i,
{
    match i {
        Expr::Value(v) => Ok(v.clone()),
        Expr::Variable(k) => {
            match env.find(k) {
                Some(v) => Ok(v.clone()),
                None => Err(Fail::UnboundVariable),
            }
        },
        Expr::FunctionCall(c) => {
            match eval_values(&c.args, env) {
                Ok(values) => eval_function(&c.call_name, &values),
                Err(e) => Err(e),
            }
        },
    }
}

} // verus!
