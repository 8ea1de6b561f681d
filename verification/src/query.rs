//! The resolver: unification, matching, and the search that proves a goal
//! against the database.
use vstd::prelude::*;
use crate::environment::Database;
use crate::fact::{ValueLine, ValueTable};
use crate::rule::{exprs_view, goals_view, lemma_exprs_view, lemma_patterns_view, Expr, FactQuery, Pattern, RuleBody, RuleTable};
use crate::scope::{lookup, with_frame, Bindings, FrameView, Scope, SimpleScope};
use crate::semantics::{
    binding_spec, bound_args, clause_witness, consistent, first_clause, first_line, line_witness,
    match_from, matching_spec, merge_spec, merged, prove_all, prove_spec, reached_frame,
    unify_from, unify_spec, Fail,
};
use crate::value::{lemma_views_of, Name, Value};

verus! {

/// Exchanges the two sides of a result: a success becomes the error and an
/// error becomes the success.
pub fn swap_result<T, E>(i: Result<T, E>) -> (r: Result<E, T>)
    ensures
        match i {
            Ok(x) => r == Err::<E, T>(x),
            Err(x) => r == Ok::<E, T>(x),
        },
{
    match i {
        Ok(x) => Err(x),
        Err(x) => Ok(x),
    }
}

/// Two scopes with the same enclosing chain differ in the innermost frame
/// only.
pub proof fn lemma_frame_change(a: Scope, b: Scope)
    requires
        a.parent == b.parent,
    ensures
        b.chain() == a.chain().update(0, b.this_level@),
        b.chain().len() == a.chain().len(),
        a.chain()[0] == a.this_level@,
{
    assert(b.chain() =~= a.chain().update(0, b.this_level@));
}

/// Unifies one argument of a goal with one stored value.
///
/// A literal must equal the value. A variable that the scope binds must be
/// bound to the value; an unbound variable becomes bound to it in the
/// innermost frame. A call never unifies. Where the result is an error the
/// scope is as it was.
pub fn unify(pattern: &Expr, value: &Value, env: &mut Scope) -> (r: Result<(), Fail>)
    requires
        old(env).wf(),
    ensures
        final(env).wf(),
        final(env).parent == old(env).parent,
        match unify_spec(pattern@, value@, old(env).chain()) {
            Ok(f) => r is Ok && final(env).this_level@ == f,
            Err(e) => r == Err::<(), Fail>(e) && final(env).this_level@ == old(env).this_level@,
        },
{
    proof {
        env.lemma_chain();
    }
    match pattern {
        Expr::Value(v) => {
            if *v == *value {
                Ok(())
            } else {
                Err(Fail::UnifyFail)
            }
        },
        Expr::Variable(k) => {
            let found = match env.find(k) {
                Some(v) => Some(*v == *value),
                None => None,
            };
            match found {
                Some(true) => Ok(()),
                Some(false) => Err(Fail::UnifyFail),
                None => {
                    env.set(k, value);
                    Ok(())
                },
            }
        },
        Expr::FunctionCall(_) => Err(Fail::UnifyFail),
    }
}

/// Matches one formal parameter of a clause against one argument of the
/// call.
///
/// `Ignore` matches anything. A variable is bound to the argument at its
/// first occurrence and must equal its binding at a later one. A constant
/// matches a literal equal to it. Tuple and list patterns are not supported.
/// Where the result is an error the bindings are as they were.
pub fn matching(pattern: &Pattern, value: &Expr, record: &mut Bindings) -> (r: Result<(), Fail>)
    requires
        old(record).wf(),
    ensures
        final(record).wf(),
        match matching_spec(pattern@, value@, old(record)@) {
            Ok(m) => r is Ok && final(record)@ == m,
            Err(e) => r == Err::<(), Fail>(e) && final(record)@ == old(record)@,
        },
{
    match pattern {
        Pattern::Ignore => Ok(()),
        Pattern::Variable(k) => {
            let found = match record.get(k) {
                Some(c) => Some(*c == *value),
                None => None,
            };
            match found {
                Some(true) => Ok(()),
                Some(false) => Err(Fail::MatchFail),
                None => {
                    record.insert(k, value);
                    Ok(())
                },
            }
        },
        Pattern::Constant(c) => {
            match value {
                Expr::Value(v) => {
                    if *c == *v {
                        Ok(())
                    } else {
                        Err(Fail::MatchFail)
                    }
                },
                _ => Err(Fail::MatchFail),
            }
        },
        Pattern::Tuple(_) => Err(Fail::Unsupported),
        Pattern::List(_, _) => Err(Fail::Unsupported),
    }
}

/// Replaces a variable by the caller's actual parameter for it; any other
/// expression stays as it is. A variable without an actual parameter is an
/// error.
pub fn binding(x: &Expr, bindings: &Bindings) -> (r: Result<Expr, Fail>)
    requires
        bindings.wf(),
    ensures
        match binding_spec(x@, bindings@) {
            Ok(e) => r matches Ok(y) && y@ == e,
            Err(e) => r matches Err(z) && z == e,
        },
{
    match x {
        Expr::Variable(k) => {
            match bindings.get(k) {
                Some(e) => Ok(e.clone()),
                None => Err(Fail::UnboundVariable),
            }
        },
        _ => Ok(x.clone()),
    }
}

/// Replaces the variables among the arguments of a goal by the caller's
/// actual parameters.
pub fn bind_args(args: &Vec<Expr>, bindings: &Bindings) -> (r: Result<Vec<Expr>, Fail>)
    requires
        bindings.wf(),
    ensures
        match bound_args(exprs_view(args@), bindings@) {
            Ok(s) => r matches Ok(v) && exprs_view(v@) == s,
            Err(e) => r matches Err(z) && z == e,
        },
{
    let ghost av = exprs_view(args@);
    proof {
        lemma_exprs_view(args@);
    }
    let mut out: Vec<Expr> = Vec::new();
    let mut i: usize = 0;
    while i < args.len()
        invariant
            i <= args.len(),
            bindings.wf(),
            av == exprs_view(args@),
            av.len() == args.len(),
            forall|j: int| 0 <= j < args.len() ==> #[trigger] av[j] == args[j]@,
            out.len() == i,
            forall|j: int|
                0 <= j < i ==> (#[trigger] binding_spec(av[j], bindings@)) == Ok::<_, Fail>(
                    out[j]@,
                ),
        decreases args.len() - i,
    {
        match binding(&args[i], bindings) {
            Ok(e) => {
                out.push(e);
            },
            Err(e) => {
                proof {
                    assert(binding_spec(av[i as int], bindings@) is Err);
                }
                return Err(e);
            },
        }
        i = i + 1;
    }
    proof {
        lemma_exprs_view(out@);
        let s = bound_args(av, bindings@)->Ok_0;
        assert(exprs_view(out@) =~= s);
    }
    Ok(out)
}

/// The witness of one fact line: the bindings that unifying the arguments
/// with the values of the line, position by position, leaves in a fresh frame
/// inside `env`.
pub fn query_value_line(line: &ValueLine, env: &Scope, args: &Vec<Expr>) -> (r: Result<
    SimpleScope,
    Fail,
>)
    requires
        env.wf(),
    ensures
        match line_witness(line@, exprs_view(args@), env.chain()) {
            Ok(f) => r matches Ok(w) && w.wf() && w@ == f,
            Err(e) => r matches Err(z) && z == e,
        },
{
    let ghost av = exprs_view(args@);
    let ghost lv = line@;
    proof {
        lemma_exprs_view(args@);
        lemma_views_of(line.0@);
    }
    let mut inner = env.new_level(SimpleScope::new());
    let ghost start = inner.chain();
    let mut i: usize = 0;
    while i < args.len() && i < line.0.len()
        invariant
            i <= args.len(),
            i <= line.0.len(),
            inner.wf(),
            inner.parent == Some(env),
            start == with_frame(FrameView::empty(), env.chain()),
            av == exprs_view(args@),
            lv == line@,
            av.len() == args.len(),
            lv.len() == line.0.len(),
            forall|j: int| 0 <= j < args.len() ==> #[trigger] av[j] == args[j]@,
            forall|j: int| 0 <= j < line.0.len() ==> #[trigger] lv[j] == line.0[j]@,
            unify_from(av, lv, inner.chain(), i as int) == unify_from(av, lv, start, 0),
        decreases args.len() - i,
    {
        let ghost before = inner;
        match unify(&args[i], &line.0[i], &mut inner) {
            Ok(()) => {
                proof {
                    lemma_frame_change(before, inner);
                }
            },
            Err(e) => {
                proof {
                    assert(unify_from(av, lv, before.chain(), i as int) == Err::<FrameView, Fail>(
                        e,
                    ));
                }
                return Err(e);
            },
        }
        i = i + 1;
    }
    proof {
        inner.lemma_chain();
    }
    Ok(inner.this_level)
}

/// The witness of the first line of the table, in the order of assertion,
/// that unifies with the arguments.
pub fn query_value_table(table: &ValueTable, env: &Scope, args: &Vec<Expr>) -> (r: Result<
    SimpleScope,
    Fail,
>)
    requires
        env.wf(),
    ensures
        match first_line(table@, exprs_view(args@), env.chain(), 0) {
            Ok(f) => r matches Ok(w) && w.wf() && w@ == f,
            Err(e) => r matches Err(z) && z == e,
        },
{
    let ghost av = exprs_view(args@);
    let mut i: usize = 0;
    while i < table.0.len()
        invariant
            i <= table.0.len(),
            env.wf(),
            av == exprs_view(args@),
            first_line(table@, av, env.chain(), i as int) == first_line(table@, av, env.chain(), 0),
        decreases table.0.len() - i,
    {
        match query_value_line(&table.0[i], env, args) {
            Ok(w) => {
                return Ok(w);
            },
            Err(_) => {},
        }
        i = i + 1;
    }
    Err(Fail::UnifyFail)
}

/// Merges the bindings of a witness into the innermost frame of the scope.
///
/// A symbol that the scope binds must be bound to the same value there;
/// where one is not, the result is an error and the scope is as it was. The
/// other symbols of the witness become bound in the innermost frame.
pub fn merge(witness: &SimpleScope, scope: &mut Scope) -> (r: Result<(), Fail>)
    requires
        witness.wf(),
        old(scope).wf(),
    ensures
        final(scope).wf(),
        final(scope).parent == old(scope).parent,
        match merge_spec(witness@, old(scope).chain()) {
            Ok(f) => r is Ok && final(scope).this_level@ == f,
            Err(e) => r == Err::<(), Fail>(e) && final(scope).this_level@ == old(scope).this_level@,
        },
{
    let ghost env = scope.chain();
    let ghost names = witness.0.names();
    let n = witness.len();
    let mut i: usize = 0;
    while i < n
        invariant
            i <= n,
            n == names.len(),
            names == witness.0.names(),
            witness.wf(),
            scope.wf(),
            *scope == *old(scope),
            env == scope.chain(),
            forall|j: int|
                0 <= j < i ==> (lookup(env, #[trigger] names[j]) is Some ==> lookup(env, names[j])
                    == Some(witness@[names[j]])),
        decreases n - i,
    {
        proof {
            witness.0.lemma_entry(i as int);
        }
        let agrees = match scope.find(witness.0.name_at(i)) {
            Some(x) => *x == *witness.0.item_at(i),
            None => true,
        };
        if !agrees {
            proof {
                assert(witness@.contains_key(names[i as int]));
            }
            return Err(Fail::ConsistencyFail);
        }
        i = i + 1;
    }
    proof {
        assert forall|k: Name| #[trigger]
            witness@.contains_key(k) && lookup(env, k) is Some implies lookup(env, k) == Some(
            witness@[k],
        ) by {
            let j = names.index_of(k);
            assert(0 <= j < names.len() && names[j] == k);
        }
        assert(consistent(witness@, env));
        scope.lemma_chain();
    }
    let ghost target = merged(witness@, env);
    let mut i: usize = 0;
    while i < n
        invariant
            i <= n,
            n == names.len(),
            names == witness.0.names(),
            witness.wf(),
            scope.wf(),
            scope.parent == old(scope).parent,
            env == old(scope).chain(),
            env.len() > 0,
            env[0] == old(scope).this_level@,
            target == merged(witness@, env),
            forall|k: Name|
                scope.this_level@.contains_key(k) <==> env[0].contains_key(k) || (exists|j: int|
                    0 <= j < i && #[trigger] names[j] == k && lookup(env, k) is None),
            forall|k: Name| #[trigger]
                scope.this_level@.contains_key(k) ==> scope.this_level@[k] == target[k],
        decreases n - i,
    {
        proof {
            witness.0.lemma_entry(i as int);
            lemma_frame_change(*old(scope), *scope);
        }
        let k = witness.0.name_at(i);
        let ghost cur = *scope;
        let unbound = scope.find(k).is_none();
        proof {
            let top = scope.this_level@;
            lemma_update_lookup(env, top, k@);
            if top.contains_key(k@) && !env[0].contains_key(k@) {
                let j = choose|j: int| 0 <= j < i && #[trigger] names[j] == k@ && lookup(env, k@) is None;
                assert(names[j] == names[i as int]);
                assert(false);
            }
            assert(lookup(scope.chain(), k@) == lookup(env, k@));
        }
        if unbound {
            scope.set(k, witness.0.item_at(i));
        }
        proof {
            assert forall|x: Name|
                scope.this_level@.contains_key(x) <==> env[0].contains_key(x) || (exists|j: int|
                    0 <= j < i + 1 && #[trigger] names[j] == x && lookup(env, x) is None) by {
                if unbound && x == k@ {
                    assert(names[i as int] == x);
                }
                if cur.this_level@.contains_key(x) && !env[0].contains_key(x) {
                    let j = choose|j: int|
                        0 <= j < i && #[trigger] names[j] == x && lookup(env, x) is None;
                    assert(0 <= j < i + 1 && names[j] == x);
                }
                if exists|j: int|
                    0 <= j < i + 1 && #[trigger] names[j] == x && lookup(env, x) is None {
                    let j = choose|j: int|
                        0 <= j < i + 1 && #[trigger] names[j] == x && lookup(env, x) is None;
                    if j < i {
                        assert(0 <= j < i && names[j] == x);
                    }
                }
            }
        }
        i = i + 1;
    }
    proof {
        assert forall|k: Name| scope.this_level@.contains_key(k) == target.contains_key(k) by {
            if witness@.contains_key(k) && lookup(env, k) is None {
                let j = names.index_of(k);
                assert(0 <= j < names.len() && names[j] == k);
            }
            if scope.this_level@.contains_key(k) && !env[0].contains_key(k) {
                let j = choose|j: int| 0 <= j < n && #[trigger] names[j] == k && lookup(env, k) is None;
                witness.0.lemma_entry(j);
            }
        }
        assert(scope.this_level@ =~= target);
    }
    Ok(())
}

/// In a chain whose innermost frame was replaced, a name is looked up in the
/// new frame first and in the unchanged rest after it.
pub proof fn lemma_update_lookup(env: Seq<FrameView>, top: FrameView, k: Name)
    requires
        env.len() > 0,
    ensures
        lookup(env.update(0, top), k) == if top.contains_key(k) {
            Some(top[k])
        } else {
            lookup(env.drop_first(), k)
        },
        lookup(env, k) == if env[0].contains_key(k) {
            Some(env[0][k])
        } else {
            lookup(env.drop_first(), k)
        },
{
    assert(env.update(0, top).drop_first() =~= env.drop_first());
}

/// Proves one goal and merges its witness into the innermost frame of the
/// scope.
///
/// The arguments are first replaced through `bindings`. Where the database
/// has a rule table for the goal's name and number of arguments, the witness
/// is that of the first clause that can be proved, and the fact table is
/// never looked at; otherwise it is that of the first line of the fact table
/// that unifies. `depth` bounds how many rule applications may be nested.
/// Where the result is an error the scope is as it was.
pub fn query_fact(
    goal: &FactQuery,
    db: &Database,
    scope: &mut Scope,
    bindings: &Bindings,
    depth: usize,
) -> (r: Result<(), Fail>)
    requires
        db.wf(),
        old(scope).wf(),
        bindings.wf(),
    ensures
        final(scope).wf(),
        final(scope).parent == old(scope).parent,
        match prove_spec(db@, goal@, old(scope).chain(), bindings@, depth as nat) {
            Ok(f) => r is Ok && final(scope).this_level@ == f,
            Err(e) => r == Err::<(), Fail>(e) && final(scope).this_level@ == old(scope).this_level@,
        },
    decreases depth, 0nat, 0nat,
{
    let args = match bind_args(&goal.args, bindings) {
        Ok(args) => args,
        Err(e) => {
            return Err(e);
        },
    };
    proof {
        lemma_exprs_view(args@);
    }
    let arity = args.len();
    match db.rules.get(&goal.name, arity) {
        Some(rules) => {
            if depth == 0 {
                return Err(Fail::DepthExceeded);
            }
            match query_rule_table(rules, db, scope, &args, depth - 1) {
                Ok(w) => merge(&w, scope),
                Err(e) => Err(e),
            }
        },
        None => {
            match db.facts.get(&goal.name, arity) {
                Some(facts) => {
                    match query_value_table(facts, scope, &args) {
                        Ok(w) => merge(&w, scope),
                        Err(e) => Err(e),
                    }
                },
                None => Err(Fail::ArityMismatch),
            }
        },
    }
}

/// The witness of the first clause of the table, in the order of assertion,
/// that can be proved for the arguments.
pub fn query_rule_table(
    table: &RuleTable,
    db: &Database,
    scope: &Scope,
    args: &Vec<Expr>,
    depth: usize,
) -> (r: Result<SimpleScope, Fail>)
    requires
        db.wf(),
        scope.wf(),
    ensures
        match first_clause(db@, table@, exprs_view(args@), scope.chain(), depth as nat, 0) {
            Ok(f) => r matches Ok(w) && w.wf() && w@ == f,
            Err(e) => r matches Err(z) && z == e,
        },
    decreases depth, 3nat, 0nat,
{
    let ghost av = exprs_view(args@);
    let mut i: usize = 0;
    while i < table.0.len()
        invariant
            i <= table.0.len(),
            db.wf(),
            scope.wf(),
            av == exprs_view(args@),
            first_clause(db@, table@, av, scope.chain(), depth as nat, i as int) == first_clause(
                db@,
                table@,
                av,
                scope.chain(),
                depth as nat,
                0,
            ),
        decreases table.0.len() - i,
    {
        match query_rule_body(&table.0[i], db, scope, args, depth) {
            Ok(w) => {
                return Ok(w);
            },
            Err(_) => {},
        }
        i = i + 1;
    }
    Err(Fail::MatchFail)
}

/// The witness of one clause: the arguments are matched against the formal
/// parameters, position by position, and the goals of the body are proved in
/// order in a fresh frame inside `scope`, with the matched parameters as
/// their bindings.
pub fn query_rule_body(
    clause: &RuleBody,
    db: &Database,
    scope: &Scope,
    args: &Vec<Expr>,
    depth: usize,
) -> (r: Result<SimpleScope, Fail>)
    requires
        db.wf(),
        scope.wf(),
    ensures
        match clause_witness(db@, clause@, exprs_view(args@), scope.chain(), depth as nat) {
            Ok(f) => r matches Ok(w) && w.wf() && w@ == f,
            Err(e) => r matches Err(z) && z == e,
        },
    decreases depth, 2nat, 0nat,
{
    let ghost av = exprs_view(args@);
    let ghost pv = clause@.params;
    proof {
        lemma_exprs_view(args@);
        lemma_patterns_view(clause.params@);
    }
    let mut capture = Bindings::new();
    let ghost first = capture@;
    let mut i: usize = 0;
    while i < clause.params.len() && i < args.len()
        invariant
            i <= clause.params.len(),
            i <= args.len(),
            capture.wf(),
            av == exprs_view(args@),
            pv == clause@.params,
            av.len() == args.len(),
            pv.len() == clause.params.len(),
            forall|j: int| 0 <= j < args.len() ==> #[trigger] av[j] == args[j]@,
            forall|j: int| 0 <= j < clause.params.len() ==> #[trigger] pv[j] == clause.params[j]@,
            first == crate::scope::BindingsView::empty(),
            match_from(pv, av, capture@, i as int) == match_from(pv, av, first, 0),
        decreases clause.params.len() - i,
    {
        match matching(&clause.params[i], &args[i], &mut capture) {
            Ok(()) => {},
            Err(e) => {
                return Err(e);
            },
        }
        i = i + 1;
    }
    let mut inner = scope.new_level(SimpleScope::new());
    match prove_goals(&clause.body, db, &mut inner, &capture, depth) {
        Ok(()) => Ok(inner.this_level),
        Err(e) => Err(e),
    }
}

/// Proves the goals in order, each in the scope that the one before left,
/// and stops at the first that fails. Where the result is an error, the
/// innermost frame keeps the bindings of the goals that were proved before
/// the one that failed.
pub fn prove_goals(
    goals: &Vec<FactQuery>,
    db: &Database,
    scope: &mut Scope,
    bindings: &Bindings,
    depth: usize,
) -> (r: Result<(), Fail>)
    requires
        db.wf(),
        old(scope).wf(),
        bindings.wf(),
    ensures
        final(scope).wf(),
        final(scope).parent == old(scope).parent,
        match prove_all(db@, goals_view(goals@), old(scope).chain(), bindings@, depth as nat, 0) {
            Ok(f) => r is Ok && final(scope).this_level@ == f,
            Err(e) => r == Err::<(), Fail>(e),
        },
        final(scope).this_level@ == reached_frame(
            db@,
            goals_view(goals@),
            old(scope).chain(),
            bindings@,
            depth as nat,
            0,
        ),
    decreases depth, 1nat, 0nat,
{
    let ghost gv = goals_view(goals@);
    let ghost start = scope.chain();
    let mut i: usize = 0;
    while i < goals.len()
        invariant
            i <= goals.len(),
            db.wf(),
            scope.wf(),
            bindings.wf(),
            scope.parent == old(scope).parent,
            start == old(scope).chain(),
            gv == goals_view(goals@),
            prove_all(db@, gv, scope.chain(), bindings@, depth as nat, i as int) == prove_all(
                db@,
                gv,
                start,
                bindings@,
                depth as nat,
                0,
            ),
            reached_frame(db@, gv, scope.chain(), bindings@, depth as nat, i as int)
                == reached_frame(db@, gv, start, bindings@, depth as nat, 0),
        decreases goals.len() - i,
    {
        let ghost before = *scope;
        match query_fact(&goals[i], db, scope, bindings, depth) {
            Ok(()) => {
                proof {
                    lemma_frame_change(before, *scope);
                }
            },
            Err(e) => {
                proof {
                    assert(prove_all(db@, gv, before.chain(), bindings@, depth as nat, i as int)
                        == Err::<FrameView, Fail>(e));
                    before.lemma_chain();
                    assert(reached_frame(db@, gv, before.chain(), bindings@, depth as nat, i as int)
                        == before.this_level@);
                }
                return Err(e);
            },
        }
        i = i + 1;
    }
    proof {
        scope.lemma_chain();
    }
    Ok(())
}

} // verus!
