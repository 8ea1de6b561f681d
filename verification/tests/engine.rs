use akashic_record::environment::Database;
use akashic_record::eval::{eval_function, eval_value};
use akashic_record::fact::ValueLine;
use akashic_record::load::{query, assert_fact, assert_rule, define, eval_line, DEFAULT_DEPTH};
use akashic_record::query::{
    bind_args, binding, matching, merge, query_fact, query_rule_body, query_rule_table,
    query_value_line, query_value_table, swap_result, unify,
};
use akashic_record::rule::{Call, Expr, FactQuery, Pattern, RuleBody};
use akashic_record::scope::{Bindings, Scope, SimpleScope};
use akashic_record::semantics::Fail;
use akashic_record::value::{Symbol, Value};

fn sym(name: &str) -> Symbol {
    Symbol::new(name)
}

fn atom(name: &str) -> Value {
    Value::Sym(Symbol::new(name))
}

fn var(name: &str) -> Expr {
    Expr::Variable(Symbol::new(name))
}

fn lit(v: Value) -> Expr {
    Expr::Value(v)
}

fn goal(name: &str, args: Vec<Expr>) -> FactQuery {
    FactQuery { name: Symbol::new(name), args }
}

fn fact(db: &mut Database, name: &str, values: Vec<Value>) {
    assert_fact(db, Symbol::new(name), ValueLine(values));
}

fn bound(frame: &SimpleScope, name: &str) -> Option<Value> {
    frame.find(&Symbol::new(name)).cloned()
}

fn ask(db: &Database, params: &[&str], goals: Vec<FactQuery>) -> Result<SimpleScope, Fail> {
    let scope = Scope::new();
    let params: Vec<Symbol> = params.iter().map(|p| Symbol::new(p)).collect();
    query(db, &scope, &params, &goals, DEFAULT_DEPTH)
}

#[test]
fn swap_result_exchanges_the_sides() {
    let ok: Result<u8, bool> = Ok(3);
    let err: Result<u8, bool> = Err(true);
    assert_eq!(swap_result(ok), Err(3));
    assert_eq!(swap_result(err), Ok(true));
}

#[test]
fn point_query_binds_both_variables() {
    let mut db = Database::new();
    fact(&mut db, "point", vec![Value::Uint(1), Value::Uint(2)]);
    let frame = ask(&db, &["a", "b"], vec![goal("point", vec![var("a"), var("b")])]).unwrap();
    assert_eq!(frame.len(), 2);
    assert_eq!(bound(&frame, "a"), Some(Value::Uint(1)));
    assert_eq!(bound(&frame, "b"), Some(Value::Uint(2)));
}

fn likes_database() -> Database {
    let mut db = Database::new();
    fact(&mut db, "likes", vec![atom("alice"), atom("bob")]);
    fact(&mut db, "likes", vec![atom("bob"), atom("carol")]);
    db
}

#[test]
fn friend_of_friend_with_every_variable_a_parameter() {
    let mut db = likes_database();
    assert_rule(
        &mut db,
        sym("friend-of-friend"),
        RuleBody {
            params: vec![
                Pattern::Variable(sym("x")),
                Pattern::Variable(sym("y")),
                Pattern::Variable(sym("z")),
            ],
            body: vec![
                goal("likes", vec![var("x"), var("y")]),
                goal("likes", vec![var("y"), var("z")]),
            ],
        },
    );
    let frame = ask(
        &db,
        &["y", "z"],
        vec![goal("friend-of-friend", vec![lit(atom("alice")), var("y"), var("z")])],
    )
    .unwrap();
    assert_eq!(frame.len(), 2);
    assert_eq!(bound(&frame, "y"), Some(atom("bob")));
    assert_eq!(bound(&frame, "z"), Some(atom("carol")));
}

#[test]
fn friend_of_friend_with_a_variable_that_no_parameter_binds() {
    let mut db = likes_database();
    assert_rule(
        &mut db,
        sym("friend-of-friend"),
        RuleBody {
            params: vec![Pattern::Variable(sym("x")), Pattern::Variable(sym("z"))],
            body: vec![
                goal("likes", vec![var("x"), var("y")]),
                goal("likes", vec![var("y"), var("z")]),
            ],
        },
    );
    let clause_goal = goal("friend-of-friend", vec![lit(atom("alice")), var("z")]);
    let scope = Scope::new();
    let table = db.rules.get(&sym("friend-of-friend"), 2).unwrap();
    let args = vec![lit(atom("alice")), var("z")];
    assert!(matches!(
        query_rule_body(&table.0[0], &db, &scope, &args, 8),
        Err(Fail::UnboundVariable)
    ));
    assert!(matches!(ask(&db, &["z"], vec![clause_goal]), Err(Fail::MatchFail)));
}

#[test]
fn single_step_rule_binds_through_the_parameter() {
    let mut db = likes_database();
    assert_rule(
        &mut db,
        sym("friend"),
        RuleBody {
            params: vec![Pattern::Variable(sym("x")), Pattern::Variable(sym("w"))],
            body: vec![goal("likes", vec![var("x"), var("w")])],
        },
    );
    let frame =
        ask(&db, &["z"], vec![goal("friend", vec![lit(atom("alice")), var("z")])]).unwrap();
    assert_eq!(frame.len(), 1);
    assert_eq!(bound(&frame, "z"), Some(atom("bob")));
}

#[test]
fn unknown_predicate_is_a_lookup_miss() {
    let mut db = Database::new();
    fact(&mut db, "p", vec![Value::Uint(1)]);
    assert!(matches!(ask(&db, &["x"], vec![goal("q", vec![var("x")])]), Err(Fail::ArityMismatch)));
    assert!(matches!(
        ask(&db, &["x", "y"], vec![goal("p", vec![var("x"), var("y")])]),
        Err(Fail::ArityMismatch)
    ));
    let empty = Database::new();
    assert!(matches!(ask(&empty, &[], vec![goal("p", vec![])]), Err(Fail::ArityMismatch)));
}

#[test]
fn two_facts_give_exactly_one_witness() {
    let mut db = Database::new();
    fact(&mut db, "p", vec![Value::Uint(1)]);
    fact(&mut db, "p", vec![Value::Uint(2)]);
    let frame = ask(&db, &["X"], vec![goal("p", vec![var("X")])]).unwrap();
    assert_eq!(frame.len(), 1);
    let x = bound(&frame, "X").unwrap();
    assert!(x == Value::Uint(1) || x == Value::Uint(2));
    assert_eq!(x, Value::Uint(1));
}

#[test]
fn ground_query_matches_a_stored_line_and_binds_nothing() {
    let mut db = Database::new();
    fact(&mut db, "edge", vec![Value::Uint(1), Value::Uint(2)]);
    let frame =
        ask(&db, &[], vec![goal("edge", vec![lit(Value::Uint(1)), lit(Value::Uint(2))])]).unwrap();
    assert_eq!(frame.len(), 0);
    assert!(matches!(
        ask(&db, &[], vec![goal("edge", vec![lit(Value::Uint(1)), lit(Value::Uint(3))])]),
        Err(Fail::UnifyFail)
    ));
    fact(&mut db, "edge", vec![Value::Uint(1), Value::Uint(3)]);
    let frame =
        ask(&db, &[], vec![goal("edge", vec![lit(Value::Uint(1)), lit(Value::Uint(3))])]).unwrap();
    assert_eq!(frame.len(), 0);
}

#[test]
fn rules_take_precedence_over_facts() {
    let mut db = Database::new();
    fact(&mut db, "p", vec![Value::Uint(1)]);
    assert_rule(
        &mut db,
        sym("p"),
        RuleBody { params: vec![Pattern::Constant(Value::Uint(7))], body: vec![] },
    );
    assert!(matches!(ask(&db, &[], vec![goal("p", vec![lit(Value::Uint(1))])]), Err(Fail::MatchFail)));
    assert!(ask(&db, &[], vec![goal("p", vec![lit(Value::Uint(7))])]).is_ok());
}

#[test]
fn assertion_keeps_earlier_answers() {
    let mut db = Database::new();
    fact(&mut db, "p", vec![Value::Uint(1)]);
    let before = ask(&db, &["X"], vec![goal("p", vec![var("X")])]).unwrap();
    fact(&mut db, "p", vec![Value::Uint(2)]);
    fact(&mut db, "q", vec![Value::Uint(5)]);
    let after = ask(&db, &["X"], vec![goal("p", vec![var("X")])]).unwrap();
    assert_eq!(bound(&before, "X"), Some(Value::Uint(1)));
    assert_eq!(bound(&after, "X"), Some(Value::Uint(1)));
    assert_eq!(after.len(), 1);
}

#[test]
fn assertion_can_turn_an_earlier_clause_into_the_witness() {
    let mut db = Database::new();
    for source in ["a", "b"] {
        assert_rule(
            &mut db,
            sym("r"),
            RuleBody {
                params: vec![Pattern::Variable(sym("X"))],
                body: vec![goal(source, vec![var("X")])],
            },
        );
    }
    fact(&mut db, "b", vec![Value::Uint(1)]);
    fact(&mut db, "c", vec![Value::Uint(1)]);
    let goals = || vec![goal("r", vec![var("X")]), goal("c", vec![var("X")])];
    let frame = ask(&db, &["X"], goals()).unwrap();
    assert_eq!(bound(&frame, "X"), Some(Value::Uint(1)));
    fact(&mut db, "a", vec![Value::Uint(2)]);
    assert!(matches!(ask(&db, &["X"], goals()), Err(Fail::UnifyFail)));
}

fn two_clause_database(first: u64, second: u64) -> Database {
    let mut db = Database::new();
    fact(&mut db, "a", vec![Value::Uint(first)]);
    fact(&mut db, "b", vec![Value::Uint(second)]);
    for source in ["a", "b"] {
        assert_rule(
            &mut db,
            sym("r"),
            RuleBody {
                params: vec![Pattern::Variable(sym("k")), Pattern::Variable(sym("X"))],
                body: vec![goal(source, vec![var("k")]), goal(source, vec![var("X")])],
            },
        );
    }
    db
}

#[test]
fn second_clause_is_the_witness_where_the_first_fails() {
    let db = two_clause_database(1, 2);
    let frame =
        ask(&db, &["X"], vec![goal("r", vec![lit(Value::Uint(2)), var("X")])]).unwrap();
    assert_eq!(frame.len(), 1);
    assert_eq!(bound(&frame, "X"), Some(Value::Uint(2)));
}

#[test]
fn one_witness_where_both_clauses_hold() {
    let db = two_clause_database(4, 4);
    let frame =
        ask(&db, &["X"], vec![goal("r", vec![lit(Value::Uint(4)), var("X")])]).unwrap();
    assert_eq!(frame.len(), 1);
    assert_eq!(bound(&frame, "X"), Some(Value::Uint(4)));
    let db = two_clause_database(1, 2);
    assert!(matches!(
        ask(&db, &["X"], vec![goal("r", vec![lit(Value::Uint(3)), var("X")])]),
        Err(Fail::MatchFail)
    ));
}

#[test]
fn conjunction_must_agree_on_a_shared_variable() {
    let mut db = Database::new();
    fact(&mut db, "p", vec![Value::Uint(1)]);
    fact(&mut db, "q", vec![Value::Uint(2)]);
    assert!(ask(&db, &["X"], vec![goal("p", vec![var("X")])]).is_ok());
    assert!(ask(&db, &["X"], vec![goal("q", vec![var("X")])]).is_ok());
    assert!(matches!(
        ask(&db, &["X"], vec![goal("p", vec![var("X")]), goal("q", vec![var("X")])]),
        Err(Fail::UnifyFail)
    ));
    fact(&mut db, "q", vec![Value::Uint(1)]);
    let frame =
        ask(&db, &["X"], vec![goal("p", vec![var("X")]), goal("q", vec![var("X")])]).unwrap();
    assert_eq!(bound(&frame, "X"), Some(Value::Uint(1)));
}

#[test]
fn query_leaves_the_scope_unchanged_and_sees_its_bindings() {
    let mut db = Database::new();
    fact(&mut db, "p", vec![Value::Uint(1)]);
    fact(&mut db, "p", vec![Value::Uint(2)]);
    let mut scope = Scope::new();
    define(&mut scope, &sym("X"), &lit(Value::Uint(2))).unwrap();
    let frame =
        query(&db, &scope, &vec![sym("X")], &vec![goal("p", vec![var("X")])], 4).unwrap();
    assert_eq!(frame.len(), 0);
    assert_eq!(scope.this_level.len(), 1);
    assert_eq!(scope.find(&sym("X")).cloned(), Some(Value::Uint(2)));
    define(&mut scope, &sym("X"), &lit(Value::Uint(3))).unwrap();
    assert!(matches!(
        query(&db, &scope, &vec![sym("X")], &vec![goal("p", vec![var("X")])], 4),
        Err(Fail::UnifyFail)
    ));
}

#[test]
fn free_variable_in_a_query_is_unbound() {
    let mut db = Database::new();
    fact(&mut db, "p", vec![Value::Uint(1)]);
    assert!(matches!(ask(&db, &[], vec![goal("p", vec![var("X")])]), Err(Fail::UnboundVariable)));
}

#[test]
fn depth_bounds_the_nesting_of_rules() {
    let mut db = Database::new();
    assert_rule(
        &mut db,
        sym("loop"),
        RuleBody { params: vec![], body: vec![goal("loop", vec![])] },
    );
    let scope = Scope::new();
    assert!(matches!(
        query(&db, &scope, &vec![], &vec![goal("loop", vec![])], 0),
        Err(Fail::DepthExceeded)
    ));
    assert!(matches!(
        query(&db, &scope, &vec![], &vec![goal("loop", vec![])], 5),
        Err(Fail::MatchFail)
    ));
    assert!(matches!(ask(&db, &[], vec![goal("loop", vec![])]), Err(Fail::MatchFail)));
    let mut db = Database::new();
    fact(&mut db, "leaf", vec![]);
    assert_rule(&mut db, sym("one"), RuleBody { params: vec![], body: vec![goal("leaf", vec![])] });
    assert_rule(&mut db, sym("two"), RuleBody { params: vec![], body: vec![goal("one", vec![])] });
    assert!(query(&db, &scope, &vec![], &vec![goal("two", vec![])], 2).is_ok());
    assert!(matches!(
        query(&db, &scope, &vec![], &vec![goal("two", vec![])], 1),
        Err(Fail::MatchFail)
    ));
    assert!(query(&db, &scope, &vec![], &vec![goal("leaf", vec![])], 0).is_ok());
}

#[test]
fn unify_literal_variable_and_call() {
    let mut scope = Scope::new();
    assert_eq!(unify(&lit(Value::Uint(1)), &Value::Uint(1), &mut scope), Ok(()));
    assert_eq!(unify(&lit(Value::Uint(1)), &Value::Uint(2), &mut scope), Err(Fail::UnifyFail));
    assert_eq!(scope.this_level.len(), 0);
    assert_eq!(unify(&var("x"), &Value::Uint(5), &mut scope), Ok(()));
    assert_eq!(scope.find(&sym("x")).cloned(), Some(Value::Uint(5)));
    assert_eq!(unify(&var("x"), &Value::Uint(5), &mut scope), Ok(()));
    assert_eq!(unify(&var("x"), &Value::Uint(6), &mut scope), Err(Fail::UnifyFail));
    assert_eq!(scope.find(&sym("x")).cloned(), Some(Value::Uint(5)));
    let call = Expr::FunctionCall(Box::new(Call { call_name: sym("f"), args: vec![] }));
    assert_eq!(unify(&call, &Value::Uint(5), &mut scope), Err(Fail::UnifyFail));
    assert_eq!(scope.this_level.len(), 1);
}

#[test]
fn unify_sees_the_enclosing_frames() {
    let mut outer = Scope::new();
    outer.set(&sym("x"), &Value::Uint(1));
    let mut inner = outer.new_level(SimpleScope::new());
    assert_eq!(unify(&var("x"), &Value::Uint(2), &mut inner), Err(Fail::UnifyFail));
    assert_eq!(unify(&var("x"), &Value::Uint(1), &mut inner), Ok(()));
    assert_eq!(inner.this_level.len(), 0);
    assert_eq!(unify(&var("y"), &Value::Uint(2), &mut inner), Ok(()));
    assert_eq!(inner.this_level.len(), 1);
    assert_eq!(inner.find(&sym("y")).cloned(), Some(Value::Uint(2)));
    let frame = inner.this_level;
    assert_eq!(outer.find(&sym("y")), None);
    assert_eq!(bound(&frame, "y"), Some(Value::Uint(2)));
}

#[test]
fn matching_binds_once_and_compares_afterwards() {
    let mut record = Bindings::new();
    assert_eq!(matching(&Pattern::Ignore, &var("a"), &mut record), Ok(()));
    assert_eq!(record.0.len(), 0);
    assert_eq!(matching(&Pattern::Variable(sym("x")), &var("a"), &mut record), Ok(()));
    assert_eq!(record.get(&sym("x")).cloned(), Some(var("a")));
    assert_eq!(matching(&Pattern::Variable(sym("x")), &var("a"), &mut record), Ok(()));
    assert_eq!(
        matching(&Pattern::Variable(sym("x")), &var("b"), &mut record),
        Err(Fail::MatchFail)
    );
    assert_eq!(record.get(&sym("x")).cloned(), Some(var("a")));
    assert_eq!(record.0.len(), 1);
    let one = Pattern::Constant(Value::Uint(1));
    assert_eq!(matching(&one, &lit(Value::Uint(1)), &mut record), Ok(()));
    assert_eq!(matching(&one, &lit(Value::Uint(2)), &mut record), Err(Fail::MatchFail));
    assert_eq!(matching(&one, &var("a"), &mut record), Err(Fail::MatchFail));
    assert_eq!(
        matching(&Pattern::Tuple(vec![]), &lit(Value::Nil), &mut record),
        Err(Fail::Unsupported)
    );
    assert_eq!(
        matching(&Pattern::List(vec![], None), &lit(Value::Nil), &mut record),
        Err(Fail::Unsupported)
    );
    assert_eq!(record.0.len(), 1);
}

#[test]
fn repeated_parameter_demands_equal_arguments() {
    let mut db = Database::new();
    assert_rule(
        &mut db,
        sym("same"),
        RuleBody {
            params: vec![Pattern::Variable(sym("x")), Pattern::Variable(sym("x"))],
            body: vec![],
        },
    );
    assert!(ask(&db, &[], vec![goal("same", vec![lit(Value::Uint(1)), lit(Value::Uint(1))])])
        .is_ok());
    assert!(matches!(
        ask(&db, &[], vec![goal("same", vec![lit(Value::Uint(1)), lit(Value::Uint(2))])]),
        Err(Fail::MatchFail)
    ));
}

#[test]
fn binding_replaces_variables_only() {
    let mut bindings = Bindings::new();
    bindings.insert(&sym("x"), &lit(Value::Uint(9)));
    assert_eq!(binding(&var("x"), &bindings), Ok(lit(Value::Uint(9))));
    assert_eq!(binding(&var("y"), &bindings), Err(Fail::UnboundVariable));
    assert_eq!(binding(&lit(Value::Nil), &bindings), Ok(lit(Value::Nil)));
    let call = Expr::FunctionCall(Box::new(Call { call_name: sym("f"), args: vec![var("y")] }));
    assert_eq!(binding(&call, &bindings), Ok(call.clone()));
    assert_eq!(
        bind_args(&vec![var("x"), lit(Value::Nil)], &bindings),
        Ok(vec![lit(Value::Uint(9)), lit(Value::Nil)])
    );
    assert_eq!(
        bind_args(&vec![var("x"), var("y")], &bindings),
        Err(Fail::UnboundVariable)
    );
}

#[test]
fn merge_adds_unbound_symbols_and_checks_bound_ones() {
    let mut scope = Scope::new();
    scope.set(&sym("a"), &Value::Uint(1));
    let mut witness = SimpleScope::new();
    witness.set(&sym("a"), &Value::Uint(1));
    witness.set(&sym("b"), &Value::Uint(2));
    assert_eq!(merge(&witness, &mut scope), Ok(()));
    assert_eq!(scope.this_level.len(), 2);
    assert_eq!(scope.find(&sym("b")).cloned(), Some(Value::Uint(2)));
    let mut clash = SimpleScope::new();
    clash.set(&sym("c"), &Value::Uint(3));
    clash.set(&sym("b"), &Value::Uint(5));
    assert_eq!(merge(&clash, &mut scope), Err(Fail::ConsistencyFail));
    assert_eq!(scope.this_level.len(), 2);
    assert_eq!(scope.find(&sym("c")), None);
    assert_eq!(scope.find(&sym("b")).cloned(), Some(Value::Uint(2)));
}

#[test]
fn merge_leaves_symbols_of_enclosing_frames_where_they_are() {
    let mut outer = Scope::new();
    outer.set(&sym("a"), &Value::Uint(1));
    let mut inner = outer.new_level(SimpleScope::new());
    let mut witness = SimpleScope::new();
    witness.set(&sym("a"), &Value::Uint(1));
    witness.set(&sym("b"), &Value::Uint(2));
    assert_eq!(merge(&witness, &mut inner), Ok(()));
    assert_eq!(inner.this_level.len(), 1);
    assert_eq!(bound(&inner.this_level, "b"), Some(Value::Uint(2)));
    assert_eq!(bound(&inner.this_level, "a"), None);
}

#[test]
fn line_and_table_witnesses() {
    let scope = Scope::new();
    let line = ValueLine(vec![Value::Uint(1), Value::Uint(1)]);
    let frame = query_value_line(&line, &scope, &vec![var("x"), var("x")]).unwrap();
    assert_eq!(frame.len(), 1);
    assert_eq!(bound(&frame, "x"), Some(Value::Uint(1)));
    let line = ValueLine(vec![Value::Uint(1), Value::Uint(2)]);
    assert!(matches!(
        query_value_line(&line, &scope, &vec![var("x"), var("x")]),
        Err(Fail::UnifyFail)
    ));
    let mut db = Database::new();
    fact(&mut db, "p", vec![Value::Uint(1), Value::Uint(2)]);
    fact(&mut db, "p", vec![Value::Uint(3), Value::Uint(3)]);
    fact(&mut db, "p", vec![Value::Uint(4), Value::Uint(4)]);
    let table = db.facts.get(&sym("p"), 2).unwrap();
    let frame = query_value_table(table, &scope, &vec![var("x"), var("x")]).unwrap();
    assert_eq!(bound(&frame, "x"), Some(Value::Uint(3)));
    assert!(matches!(
        query_value_table(table, &scope, &vec![lit(Value::Uint(9)), var("x")]),
        Err(Fail::UnifyFail)
    ));
}

#[test]
fn rule_table_and_goal_by_hand() {
    let db = two_clause_database(1, 2);
    let scope = Scope::new();
    let table = db.rules.get(&sym("r"), 2).unwrap();
    let args = vec![lit(Value::Uint(2)), var("X")];
    let frame = query_rule_table(table, &db, &scope, &args, 3).unwrap();
    assert_eq!(bound(&frame, "X"), Some(Value::Uint(2)));
    assert!(matches!(
        query_rule_body(&table.0[0], &db, &scope, &args, 3),
        Err(Fail::UnifyFail)
    ));
    let mut scope = Scope::new();
    let mut bindings = Bindings::new();
    bindings.insert(&sym("X"), &var("X"));
    let g = goal("r", vec![lit(Value::Uint(2)), var("X")]);
    assert_eq!(query_fact(&g, &db, &mut scope, &bindings, 0), Err(Fail::DepthExceeded));
    assert_eq!(scope.this_level.len(), 0);
    assert_eq!(query_fact(&g, &db, &mut scope, &bindings, 1), Ok(()));
    assert_eq!(scope.find(&sym("X")).cloned(), Some(Value::Uint(2)));
}

#[test]
fn evaluation_of_expressions() {
    let mut scope = Scope::new();
    assert_eq!(eval_value(&lit(Value::Uint(3)), &scope), Ok(Value::Uint(3)));
    assert_eq!(eval_value(&var("x"), &scope), Err(Fail::UnboundVariable));
    scope.set(&sym("x"), &Value::Bool(true));
    assert_eq!(eval_value(&var("x"), &scope), Ok(Value::Bool(true)));
    let call = |args| Expr::FunctionCall(Box::new(Call { call_name: sym("f"), args }));
    assert_eq!(eval_value(&call(vec![var("x")]), &scope), Err(Fail::Unsupported));
    assert_eq!(eval_value(&call(vec![var("x"), var("y")]), &scope), Err(Fail::UnboundVariable));
    assert_eq!(
        eval_value(&call(vec![call(vec![]), var("y")]), &scope),
        Err(Fail::Unsupported)
    );
    assert_eq!(eval_function(&sym("f"), &vec![Value::Nil]), Err(Fail::Unsupported));
}

#[test]
fn definition_binds_the_value_of_the_expression() {
    let mut scope = Scope::new();
    assert_eq!(define(&mut scope, &sym("x"), &lit(Value::Uint(1))), Ok(()));
    assert_eq!(define(&mut scope, &sym("y"), &var("x")), Ok(()));
    assert_eq!(scope.find(&sym("y")).cloned(), Some(Value::Uint(1)));
    assert_eq!(define(&mut scope, &sym("z"), &var("nothing")), Err(Fail::UnboundVariable));
    assert_eq!(scope.find(&sym("z")), None);
    assert_eq!(scope.this_level.len(), 2);
    assert_eq!(define(&mut scope, &sym("x"), &lit(Value::Uint(5))), Ok(()));
    assert_eq!(scope.find(&sym("x")).cloned(), Some(Value::Uint(5)));
    assert_eq!(scope.this_level.len(), 2);
}

#[test]
fn fact_lines_are_evaluated_before_they_are_asserted() {
    let mut scope = Scope::new();
    scope.set(&sym("n"), &Value::Uint(7));
    let line = eval_line(&vec![var("n"), lit(atom("k"))], &scope).unwrap();
    assert_eq!(line.0, vec![Value::Uint(7), atom("k")]);
    assert!(matches!(eval_line(&vec![var("n"), var("m")], &scope), Err(Fail::UnboundVariable)));
    let mut db = Database::new();
    assert_fact(&mut db, sym("p"), line);
    assert_eq!(db.facts.get(&sym("p"), 2).unwrap().0.len(), 1);
    assert!(db.facts.get(&sym("p"), 1).is_none());
    assert!(db.rules.get(&sym("p"), 2).is_none());
}

#[test]
fn tables_are_keyed_by_name_and_arity_and_only_grow() {
    let mut db = Database::new();
    fact(&mut db, "p", vec![Value::Uint(1)]);
    fact(&mut db, "p", vec![Value::Uint(1), Value::Uint(2)]);
    fact(&mut db, "p", vec![Value::Uint(3)]);
    fact(&mut db, "q", vec![Value::Uint(1)]);
    let unary = db.facts.get(&sym("p"), 1).unwrap();
    assert_eq!(unary.0.len(), 2);
    assert_eq!(unary.0[0].0, vec![Value::Uint(1)]);
    assert_eq!(unary.0[1].0, vec![Value::Uint(3)]);
    assert_eq!(db.facts.get(&sym("p"), 2).unwrap().0.len(), 1);
    assert_eq!(db.facts.get(&sym("q"), 1).unwrap().0.len(), 1);
    assert_eq!(db.facts.0.len(), 3);
    let clause = || RuleBody { params: vec![Pattern::Ignore, Pattern::Ignore], body: vec![] };
    assert_rule(&mut db, sym("r"), clause());
    assert_rule(&mut db, sym("r"), clause());
    assert_eq!(db.rules.get(&sym("r"), 2).unwrap().0.len(), 2);
    assert!(db.rules.get(&sym("r"), 1).is_none());
    assert_eq!(db.facts.0.len(), 3);
}
