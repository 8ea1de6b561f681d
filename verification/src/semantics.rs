//! What it means to prove a goal: the resolution of goals against a database
//! and a chain of frames, stated over the mathematical content of the data.
//!
//! Alternatives are tried in the order in which they were asserted, and the
//! first that succeeds is the witness. A rule that applies itself without end
//! is cut off by a bound on the nesting of rule applications.
use vstd::prelude::*;
use crate::environment::DatabaseView;
use crate::rule::{ExprView, FactQueryView, PatternView, RuleBodyView};
use crate::scope::{lookup, with_frame, BindingsView, ChainView, FrameView};
use crate::value::{Name, ValueView};

verus! {

/// Why a step of the engine did not succeed.
#[derive(Clone, Copy, Debug, PartialEq, Eq, Structural)]
pub enum Fail {
    /// A form is not one of those the engine understands.
    SyntaxFail,
    /// A variable has no binding where its value is needed.
    UnboundVariable,
    /// No table of facts or rules has the name and the number of arguments of
    /// the goal.
    ArityMismatch,
    /// An argument does not agree with a stored fact, or no line of a fact
    /// table does.
    UnifyFail,
    /// An argument does not agree with a formal parameter, or no clause of a
    /// rule table can be proved.
    MatchFail,
    /// A witness binds a symbol that the enclosing scope binds to another
    /// value.
    ConsistencyFail,
    /// The step needs a part of the engine that does not exist yet: a tuple
    /// or list pattern, or the call of a function.
    Unsupported,
    /// A rule table was reached with no nesting of rule applications left.
    DepthExceeded,
}

/// Unifying one argument with one stored value: the innermost frame that
/// results. A literal must be the value. A variable that the chain binds must
/// be bound to the value; an unbound variable becomes bound to it in the
/// innermost frame. A call never unifies.
pub open spec fn unify_spec(pattern: ExprView, value: ValueView, env: ChainView) -> Result<
    FrameView,
    Fail,
> {
    match pattern {
        ExprView::Value(v) => if v == value {
            Ok(env[0])
        } else {
            Err(Fail::UnifyFail)
        },
        ExprView::Variable(k) => match lookup(env, k) {
            Some(v) => if v == value {
                Ok(env[0])
            } else {
                Err(Fail::UnifyFail)
            },
            None => Ok(env[0].insert(k, value)),
        },
        ExprView::FunctionCall(_, _) => Err(Fail::UnifyFail),
    }
}

/// Unifying the arguments from position `i` on with the values of a line at
/// the same positions, each in the frame that the one before left.
pub open spec fn unify_from(args: Seq<ExprView>, line: Seq<ValueView>, env: ChainView, i: int) -> Result<
    FrameView,
    Fail,
>
    decreases args.len() - i,
{
    if i < 0 || i >= args.len() || i >= line.len() {
        Ok(env[0])
    } else {
        match unify_spec(args[i], line[i], env) {
            Err(e) => Err(e),
            Ok(f) => unify_from(args, line, env.update(0, f), i + 1),
        }
    }
}

/// The witness of one line: the bindings that unifying the arguments with the
/// line leaves in a fresh frame inside `env`.
pub open spec fn line_witness(line: Seq<ValueView>, args: Seq<ExprView>, env: ChainView) -> Result<
    FrameView,
    Fail,
> {
    unify_from(args, line, with_frame(FrameView::empty(), env), 0)
}

/// The witness of the first line from position `i` on that unifies with the
/// arguments.
pub open spec fn first_line(
    table: Seq<Seq<ValueView>>,
    args: Seq<ExprView>,
    env: ChainView,
    i: int,
) -> Result<FrameView, Fail>
    decreases table.len() - i,
{
    if i < 0 || i >= table.len() {
        Err(Fail::UnifyFail)
    } else {
        match line_witness(table[i], args, env) {
            Ok(w) => Ok(w),
            Err(_) => first_line(table, args, env, i + 1),
        }
    }
}

/// Matching one formal parameter against one argument: the bindings of the
/// parameters that result.
pub open spec fn matching_spec(pattern: PatternView, value: ExprView, record: BindingsView) -> Result<
    BindingsView,
    Fail,
> {
    match pattern {
        PatternView::Ignore => Ok(record),
        PatternView::Variable(k) => if record.contains_key(k) {
            if record[k] == value {
                Ok(record)
            } else {
                Err(Fail::MatchFail)
            }
        } else {
            Ok(record.insert(k, value))
        },
        PatternView::Constant(c) => match value {
            ExprView::Value(v) => if c == v {
                Ok(record)
            } else {
                Err(Fail::MatchFail)
            },
            _ => Err(Fail::MatchFail),
        },
        PatternView::Tuple(_) => Err(Fail::Unsupported),
        PatternView::List(_, _) => Err(Fail::Unsupported),
    }
}

/// Matching the parameters from position `i` on against the arguments at the
/// same positions, each with the bindings that the one before left.
pub open spec fn match_from(
    params: Seq<PatternView>,
    args: Seq<ExprView>,
    record: BindingsView,
    i: int,
) -> Result<BindingsView, Fail>
    decreases params.len() - i,
{
    if i < 0 || i >= params.len() || i >= args.len() {
        Ok(record)
    } else {
        match matching_spec(params[i], args[i], record) {
            Err(e) => Err(e),
            Ok(next) => match_from(params, args, next, i + 1),
        }
    }
}

/// An argument of a goal with the caller's actual parameter in place of a
/// variable. A variable that the caller did not bind is an error; there is
/// no search over the values it might take.
pub open spec fn binding_spec(x: ExprView, bindings: BindingsView) -> Result<ExprView, Fail> {
    match x {
        ExprView::Variable(k) => if bindings.contains_key(k) {
            Ok(bindings[k])
        } else {
            Err(Fail::UnboundVariable)
        },
        _ => Ok(x),
    }
}

/// The arguments of a goal, each with the caller's actual parameter in place
/// of a variable.
pub open spec fn bound_args(args: Seq<ExprView>, bindings: BindingsView) -> Result<
    Seq<ExprView>,
    Fail,
> {
    if forall|i: int| 0 <= i < args.len() ==> (#[trigger] binding_spec(args[i], bindings)) is Ok {
        Ok(Seq::new(args.len(), |i: int| binding_spec(args[i], bindings)->Ok_0))
    } else {
        Err(Fail::UnboundVariable)
    }
}

/// The witness agrees with the chain: a symbol that both bind has the same
/// value in both.
pub open spec fn consistent(witness: FrameView, env: ChainView) -> bool {
    forall|k: Name| #[trigger]
        witness.contains_key(k) ==> (lookup(env, k) is Some ==> lookup(env, k) == Some(witness[k]))
}

/// The innermost frame of the chain with the bindings of the witness for the
/// symbols that the chain does not bind.
pub open spec fn merged(witness: FrameView, env: ChainView) -> FrameView {
    Map::new(
        |k: Name| env[0].contains_key(k) || (witness.contains_key(k) && lookup(env, k) is None),
        |k: Name|
            if env[0].contains_key(k) {
                env[0][k]
            } else {
                witness[k]
            },
    )
}

/// Merging a witness into the innermost frame of the chain: the frame that
/// results, or an error where the witness disagrees with the chain.
pub open spec fn merge_spec(witness: FrameView, env: ChainView) -> Result<FrameView, Fail> {
    if consistent(witness, env) {
        Ok(merged(witness, env))
    } else {
        Err(Fail::ConsistencyFail)
    }
}

/// Proving one goal: the innermost frame of `env` after the witness of the
/// goal was merged into it.
///
/// The arguments are first replaced through `bindings`. A rule table for
/// the goal's name and number of arguments is consulted first, and then the
/// fact table is never looked at; the fact table is consulted where there is
/// no rule table. `depth` bounds how many rule applications may be nested.
pub open spec fn prove_spec(
    db: DatabaseView,
    goal: FactQueryView,
    env: ChainView,
    bindings: BindingsView,
    depth: nat,
) -> Result<FrameView, Fail>
    decreases depth, 0nat, 0nat,
{
    match bound_args(goal.args, bindings) {
        Err(e) => Err(e),
        Ok(args) => {
            let key = (goal.name, args.len());
            if db.rules.contains_key(key) {
                if depth == 0 {
                    Err(Fail::DepthExceeded)
                } else {
                    match first_clause(db, db.rules[key], args, env, (depth - 1) as nat, 0) {
                        Ok(w) => merge_spec(w, env),
                        Err(e) => Err(e),
                    }
                }
            } else if db.facts.contains_key(key) {
                match first_line(db.facts[key], args, env, 0) {
                    Ok(w) => merge_spec(w, env),
                    Err(e) => Err(e),
                }
            } else {
                Err(Fail::ArityMismatch)
            }
        },
    }
}

/// The witness of the first clause from position `i` on that can be proved.
pub open spec fn first_clause(
    db: DatabaseView,
    table: Seq<RuleBodyView>,
    args: Seq<ExprView>,
    env: ChainView,
    depth: nat,
    i: int,
) -> Result<FrameView, Fail>
    decreases depth, 3nat, table.len() - i,
{
    if i < 0 || i >= table.len() {
        Err(Fail::MatchFail)
    } else {
        match clause_witness(db, table[i], args, env, depth) {
            Ok(w) => Ok(w),
            Err(_) => first_clause(db, table, args, env, depth, i + 1),
        }
    }
}

/// The witness of one clause: the arguments are matched against the formal
/// parameters, and the goals of the body are proved in order in a fresh frame
/// inside `env`, with the matched parameters as their bindings.
pub open spec fn clause_witness(
    db: DatabaseView,
    clause: RuleBodyView,
    args: Seq<ExprView>,
    env: ChainView,
    depth: nat,
) -> Result<FrameView, Fail>
    decreases depth, 2nat, 0nat,
{
    match match_from(clause.params, args, BindingsView::empty(), 0) {
        Err(e) => Err(e),
        Ok(capture) => prove_all(
            db,
            clause.body,
            with_frame(FrameView::empty(), env),
            capture,
            depth,
            0,
        ),
    }
}

/// Proving the goals from position `i` on, in order, each in the frame that
/// the one before left: the innermost frame at the end.
pub open spec fn prove_all(
    db: DatabaseView,
    goals: Seq<FactQueryView>,
    env: ChainView,
    bindings: BindingsView,
    depth: nat,
    i: int,
) -> Result<FrameView, Fail>
    decreases depth, 1nat, goals.len() - i,
{
    if i < 0 || i >= goals.len() {
        Ok(env[0])
    } else {
        match prove_spec(db, goals[i], env, bindings, depth) {
            Err(e) => Err(e),
            Ok(f) => prove_all(db, goals, env.update(0, f), bindings, depth, i + 1),
        }
    }
}

/// The innermost frame that proving the goals from position `i` on, in
/// order, arrives at: the frame at the end where all of them are proved, and
/// else the frame before the first goal that fails.
pub open spec fn reached_frame(
    db: DatabaseView,
    goals: Seq<FactQueryView>,
    env: ChainView,
    bindings: BindingsView,
    depth: nat,
    i: int,
) -> FrameView
    decreases goals.len() - i,
{
    if i < 0 || i >= goals.len() {
        env[0]
    } else {
        match prove_spec(db, goals[i], env, bindings, depth) {
            Err(_) => env[0],
            Ok(f) => reached_frame(db, goals, env.update(0, f), bindings, depth, i + 1),
        }
    }
}

/// The bindings of a query's own variables: each stands for itself.
pub open spec fn self_bindings(params: Seq<Name>) -> BindingsView {
    Map::new(|k: Name| params.contains(k), |k: Name| ExprView::Variable(k))
}

/// The bindings that a query yields: those that proving all its goals, in
/// order, leaves in a fresh frame inside `env`.
pub open spec fn query_spec(
    db: DatabaseView,
    env: ChainView,
    params: Seq<Name>,
    goals: Seq<FactQueryView>,
    depth: nat,
) -> Result<FrameView, Fail> {
    prove_all(db, goals, with_frame(FrameView::empty(), env), self_bindings(params), depth, 0)
}

} // verus!
