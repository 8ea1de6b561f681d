use akashic_record::environment::Database;
use akashic_record::gast::{simple_value_from_gast, Constant, GAst, List};
use akashic_record::load::{
    apply_query, database_load, line_from_gast, query_from_gast, repl_eval, rule_from_gast, Loader,
    DEFAULT_DEPTH,
};
use akashic_record::parser::{
    exprs_from_gast, goals_from_gast, has_head, has_head_at, headed_items, patterns_from_gast,
    proper_items, symbol_from_sexpr, symbols_from_gast, FromGast,
};
use akashic_record::rule::{Call, Expr, FactQuery, Pattern};
use akashic_record::scope::{Scope, SimpleScope};
use akashic_record::semantics::Fail;
use akashic_record::value::{Symbol, Value};
use sexpr_ir::gast::constant::Constant as ParsedConstant;
use sexpr_ir::gast::GAst as ParsedTree;
use sexpr_ir::syntax::sexpr::one_unit_parse;

fn constant(c: &ParsedConstant) -> Constant {
    match c {
        ParsedConstant::Nil => Constant::Nil,
        ParsedConstant::Bool(b) => Constant::Bool(*b),
        ParsedConstant::Char(c) => Constant::Char(*c),
        ParsedConstant::Int(n) => Constant::Int(*n),
        ParsedConstant::Uint(n) => Constant::Uint(*n),
        ParsedConstant::Float(x) => Constant::Float(x.to_string()),
        ParsedConstant::Str(s) => Constant::Str(s.as_ref().clone()),
        ParsedConstant::Sym(s) => Constant::Sym(Symbol::new(s.0.as_str())),
    }
}

fn tree(g: &ParsedTree) -> GAst {
    match g {
        ParsedTree::Const(c) => GAst::Const(constant(c)),
        ParsedTree::List(l) => {
            GAst::List(Box::new(List(l.0.iter().map(tree).collect(), l.1.as_ref().map(tree))))
        }
    }
}

fn read(text: &str) -> GAst {
    tree(&one_unit_parse(text, "<test>").unwrap())
}

fn dotted(list: &str, tail: &str) -> GAst {
    match read(list) {
        GAst::List(l) => GAst::List(Box::new(List(l.0, Some(read(tail))))),
        other => panic!("{:?}", other),
    }
}

struct Session {
    db: Database,
    scope: Scope<'static>,
}

fn session() -> Session {
    Session { db: Database::new(), scope: Scope::new() }
}

fn say(s: &mut Session, text: &str) -> Result<Option<SimpleScope>, Fail> {
    repl_eval(&mut s.db, &mut s.scope, &read(text), DEFAULT_DEPTH)
}

fn tell(s: &mut Session, text: &str) {
    assert!(matches!(say(s, text), Ok(None)));
}

fn ask(s: &mut Session, text: &str) -> Result<Vec<(String, String)>, Fail> {
    match say(s, text) {
        Ok(Some(frame)) => Ok(frame
            .to_pairs()
            .iter()
            .map(|(k, v)| (k.name.clone(), v.to_text()))
            .collect()),
        Ok(None) => panic!("a query gives bindings"),
        Err(e) => Err(e),
    }
}

fn pairs(items: &[(&str, &str)]) -> Vec<(String, String)> {
    items.iter().map(|(k, v)| (k.to_string(), v.to_string())).collect()
}

fn sym(name: &str) -> Symbol {
    Symbol::new(name)
}

#[test]
fn scenario_point() {
    let mut s = session();
    tell(&mut s, "(fact point 1 2)");
    assert_eq!(
        ask(&mut s, "(exists (a b) forall (point a b))"),
        Ok(pairs(&[("a", "1"), ("b", "2")]))
    );
}

#[test]
fn scenario_friend_of_friend() {
    let mut s = session();
    tell(&mut s, "(fact likes 'alice 'bob)");
    tell(&mut s, "(fact likes 'bob 'carol)");
    tell(&mut s, "(rule (friend-of-friend x z) (likes x y) (likes y z))");
    assert_eq!(
        ask(&mut s, "(exists (z) forall (friend-of-friend 'alice z))"),
        Err(Fail::MatchFail)
    );
    tell(&mut s, "(rule (friends-through x y z) (likes x y) (likes y z))");
    assert_eq!(
        ask(&mut s, "(exists (y z) forall (friends-through 'alice y z))"),
        Ok(pairs(&[("y", "bob"), ("z", "carol")]))
    );
    assert_eq!(
        ask(&mut s, "(exists (z) forall (friends-through 'alice 'bob z))"),
        Ok(pairs(&[("z", "carol")]))
    );
}

#[test]
fn scenario_lookup_miss() {
    let mut s = session();
    assert_eq!(ask(&mut s, "(exists (x) forall (nothing x))"), Err(Fail::ArityMismatch));
    tell(&mut s, "(fact p 1)");
    assert_eq!(ask(&mut s, "(exists (x y) forall (p x y))"), Err(Fail::ArityMismatch));
    assert_eq!(s.scope.this_level.len(), 0);
}

#[test]
fn scenario_two_facts() {
    let mut s = session();
    tell(&mut s, "(fact p 1)");
    tell(&mut s, "(fact p 2)");
    let answer = ask(&mut s, "(exists (X) forall (p X))").unwrap();
    assert!(answer == pairs(&[("X", "1")]) || answer == pairs(&[("X", "2")]));
    assert_eq!(answer.len(), 1);
}

#[test]
fn scenario_conjunction() {
    let mut s = session();
    tell(&mut s, "(fact p 1)");
    tell(&mut s, "(fact q 2)");
    assert_eq!(ask(&mut s, "(exists (X) forall (p X))"), Ok(pairs(&[("X", "1")])));
    assert_eq!(ask(&mut s, "(exists (X) forall (q X))"), Ok(pairs(&[("X", "2")])));
    assert_eq!(ask(&mut s, "(exists (X) forall (p X) (q X))"), Err(Fail::UnifyFail));
}

#[test]
fn bare_symbols_in_a_fact_are_variables() {
    let mut s = session();
    assert_eq!(say(&mut s, "(fact likes alice bob)").err(), Some(Fail::UnboundVariable));
    assert!(s.db.facts.get(&sym("likes"), 2).is_none());
    tell(&mut s, "(define alice 'alice)");
    tell(&mut s, "(define bob 7)");
    tell(&mut s, "(fact likes alice bob)");
    let table = s.db.facts.get(&sym("likes"), 2).unwrap();
    assert_eq!(table.0[0].0, vec![Value::Sym(sym("alice")), Value::Int(7)]);
}

#[test]
fn definitions_bind_in_the_scope() {
    let mut s = session();
    tell(&mut s, "(define n 5)");
    tell(&mut s, "(define m n)");
    assert_eq!(s.scope.find(&sym("m")).cloned(), Some(Value::Int(5)));
    assert_eq!(say(&mut s, "(define k nothing)").err(), Some(Fail::UnboundVariable));
    assert_eq!(say(&mut s, "(define k (f 1))").err(), Some(Fail::Unsupported));
    assert_eq!(say(&mut s, "(define k)").err(), Some(Fail::SyntaxFail));
    assert_eq!(say(&mut s, "(define 3 4)").err(), Some(Fail::SyntaxFail));
    assert_eq!(s.scope.this_level.len(), 2);
    tell(&mut s, "(define extra 1 2 3)");
    assert_eq!(s.scope.find(&sym("extra")).cloned(), Some(Value::Int(1)));
    tell(&mut s, "(fact p n)");
    assert_eq!(ask(&mut s, "(exists () forall (p 5))"), Ok(pairs(&[])));
    assert_eq!(ask(&mut s, "(exists (n) forall (p n))"), Ok(pairs(&[])));
}

#[test]
fn forms_that_are_not_understood() {
    let mut s = session();
    for text in [
        "42",
        "sym",
        "()",
        "(fact)",
        "(fact 1 2)",
        "(rule)",
        "(rule p)",
        "(rule ())",
        "(rule (1 x))",
        "(rule (p x) q)",
        "(rule (p (unknown x)))",
        "(exists (x) (p x))",
        "(exists x forall (p x))",
        "(exists (1) forall (p 1))",
        "(exists (x) forall p)",
        "(exists (x))",
        "(p 1)",
    ] {
        assert_eq!(say(&mut s, text).err(), Some(Fail::SyntaxFail), "{}", text);
    }
    for form in [dotted("(fact p)", "1"), dotted("(rule (p))", "q"), dotted("(define x 1)", "2")] {
        assert_eq!(
            repl_eval(&mut s.db, &mut s.scope, &form, DEFAULT_DEPTH).err(),
            Some(Fail::SyntaxFail)
        );
    }
    assert_eq!(say(&mut s, "(fact p (1 2))").err(), Some(Fail::SyntaxFail));
    assert_eq!(say(&mut s, "(fact p (f 2))").err(), Some(Fail::Unsupported));
    assert_eq!(say(&mut s, "(fact p x (1 2))").err(), Some(Fail::UnboundVariable));
    assert_eq!(s.db.facts.0.len(), 0);
    assert_eq!(s.db.rules.0.len(), 0);
    assert_eq!(s.scope.this_level.len(), 0);
}

#[test]
fn rules_are_keyed_by_the_number_of_their_parameters() {
    let mut s = session();
    tell(&mut s, "(rule (r x) (p x))");
    tell(&mut s, "(rule (r x) (q x))");
    tell(&mut s, "(rule (r x y z) (p x))");
    tell(&mut s, "(rule (r))");
    assert_eq!(s.db.rules.get(&sym("r"), 1).unwrap().0.len(), 2);
    assert_eq!(s.db.rules.get(&sym("r"), 3).unwrap().0.len(), 1);
    assert_eq!(s.db.rules.get(&sym("r"), 0).unwrap().0.len(), 1);
    assert!(s.db.rules.get(&sym("r"), 2).is_none());
    assert_eq!(ask(&mut s, "(exists () forall (r))"), Ok(pairs(&[])));
    tell(&mut s, "(fact q 'b)");
    assert_eq!(ask(&mut s, "(exists (v) forall (r v))"), Ok(pairs(&[("v", "b")])));
}

#[test]
fn patterns_in_rules() {
    let mut s = session();
    tell(&mut s, "(rule (is-one 1))");
    tell(&mut s, "(rule (is-a 'a))");
    tell(&mut s, "(rule (any _ _))");
    tell(&mut s, "(rule (same x x))");
    tell(&mut s, "(rule (shape (tuple x y)))");
    assert!(ask(&mut s, "(exists () forall (is-one 1))").is_ok());
    assert_eq!(ask(&mut s, "(exists () forall (is-one 2))"), Err(Fail::MatchFail));
    assert!(ask(&mut s, "(exists () forall (is-a 'a))").is_ok());
    assert_eq!(ask(&mut s, "(exists () forall (is-a 'b))"), Err(Fail::MatchFail));
    assert_eq!(ask(&mut s, "(exists (a) forall (is-a a))"), Err(Fail::MatchFail));
    assert!(ask(&mut s, "(exists () forall (any 1 \"two\"))").is_ok());
    assert!(ask(&mut s, "(exists (v) forall (same v v))").is_ok());
    assert_eq!(ask(&mut s, "(exists () forall (same 1 2))"), Err(Fail::MatchFail));
    assert_eq!(ask(&mut s, "(exists () forall (shape 1))"), Err(Fail::MatchFail));
}

#[test]
fn reading_patterns() {
    let p = |text: &str| Pattern::from_gast(&read(text));
    assert!(matches!(p("_"), Some(Pattern::Ignore)));
    assert!(matches!(p("x"), Some(Pattern::Variable(s)) if s == sym("x")));
    assert!(matches!(p("12"), Some(Pattern::Constant(Value::Int(12)))));
    assert!(matches!(p("\"s\""), Some(Pattern::Constant(Value::Str(s))) if s == "s"));
    assert!(matches!(p("true"), Some(Pattern::Constant(Value::Bool(true)))));
    assert!(matches!(p("nil"), Some(Pattern::Constant(Value::Nil))));
    assert!(matches!(p("'a"), Some(Pattern::Constant(Value::Sym(s))) if s == sym("a")));
    assert!(p("'1").is_none());
    assert!(p("'(a)").is_none());
    match p("(tuple x _ 1)") {
        Some(Pattern::Tuple(items)) => {
            assert_eq!(items.len(), 3);
            assert!(matches!(&items[0], Pattern::Variable(s) if *s == sym("x")));
            assert!(matches!(&items[1], Pattern::Ignore));
            assert!(matches!(&items[2], Pattern::Constant(Value::Int(1))));
        }
        other => panic!("{:?}", other),
    }
    assert!(matches!(p("(tuple)"), Some(Pattern::Tuple(items)) if items.is_empty()));
    assert!(p("(tuple (unknown))").is_none());
    assert!(Pattern::from_gast(&dotted("(tuple x)", "y")).is_none());
    match Pattern::from_gast(&dotted("(list x 'k)", "rest")) {
        Some(Pattern::List(items, Some(rest))) => {
            assert_eq!(items.len(), 2);
            assert!(matches!(&items[1], Pattern::Constant(Value::Sym(s)) if *s == sym("k")));
            assert!(matches!(*rest, Pattern::Variable(s) if s == sym("rest")));
        }
        other => panic!("{:?}", other),
    }
    assert!(matches!(
        Pattern::from_gast(&dotted("(list)", "_")),
        Some(Pattern::List(items, Some(rest))) if items.is_empty() && matches!(*rest, Pattern::Ignore)
    ));
    assert!(p("(list x y)").is_none());
    assert!(Pattern::from_gast(&dotted("(list x)", "(unknown)")).is_none());
    assert!(Pattern::from_gast(&dotted("(list ())", "x")).is_none());
    assert!(Pattern::from_gast(&dotted("(other x)", "y")).is_none());
    assert!(Pattern::from_gast(&dotted("('a)", "y")).is_none());
    assert!(p("(other x)").is_none());
    assert!(p("()").is_none());
    match patterns_from_gast(proper_items(&read("(p x 1)")).unwrap(), 1) {
        Some(items) => assert_eq!(items.len(), 2),
        None => panic!("two patterns"),
    }
    assert!(patterns_from_gast(proper_items(&read("(p x ())")).unwrap(), 1).is_none());
}

#[test]
fn reading_expressions_and_values() {
    let e = |text: &str| Expr::from_gast(&read(text));
    assert_eq!(e("x"), Some(Expr::Variable(sym("x"))));
    assert_eq!(e("-3"), Some(Expr::Value(Value::Int(-3))));
    assert_eq!(e("\"a b\""), Some(Expr::Value(Value::Str("a b".to_string()))));
    assert_eq!(e("false"), Some(Expr::Value(Value::Bool(false))));
    assert_eq!(e("nil"), Some(Expr::Value(Value::Nil)));
    assert_eq!(e("1.5"), Some(Expr::Value(Value::Float("1.5".to_string()))));
    assert_eq!(e("'x"), Some(Expr::Value(Value::Sym(sym("x")))));
    assert_eq!(e("(quote x ignored)"), Some(Expr::Value(Value::Sym(sym("x")))));
    assert_eq!(e("'7"), None);
    assert_eq!(
        e("(f x 'y (g))"),
        Some(Expr::FunctionCall(Box::new(Call {
            call_name: sym("f"),
            args: vec![
                Expr::Variable(sym("x")),
                Expr::Value(Value::Sym(sym("y"))),
                Expr::FunctionCall(Box::new(Call { call_name: sym("g"), args: vec![] })),
            ],
        })))
    );
    assert_eq!(e("()"), None);
    assert_eq!(e("(1 2)"), None);
    assert_eq!(Expr::from_gast(&dotted("(f)", "x")), None);
    assert_eq!(
        e("(f . x)"),
        Some(Expr::FunctionCall(Box::new(Call {
            call_name: sym("f"),
            args: vec![Expr::Variable(sym(".")), Expr::Variable(sym("x"))],
        })))
    );
    assert_eq!(e("(f (1))"), None);
    assert_eq!(Call::from_gast(&read("(f 1)")).map(|c| c.args.len()), Some(1));
    assert_eq!(Call::from_gast(&read("f")), None);
    assert_eq!(Value::from_gast(&read("'x")), Some(Value::Sym(sym("x"))));
    assert_eq!(Value::from_gast(&read("x")), Some(Value::Sym(sym("x"))));
    assert_eq!(Value::from_gast(&read("12")), Some(Value::Int(12)));
    assert_eq!(Value::from_gast(&read("(f 1)")), None);
    assert_eq!(Value::from_gast(&read("'1")), None);
    let q = FactQuery::from_gast(&read("(likes 'alice z)")).unwrap();
    assert_eq!(q.name, sym("likes"));
    assert_eq!(q.args, vec![Expr::Value(Value::Sym(sym("alice"))), Expr::Variable(sym("z"))]);
    assert!(FactQuery::from_gast(&read("likes")).is_none());
    assert!(FactQuery::from_gast(&read("('likes z)")).is_none());
}

#[test]
fn constants_that_the_text_has_no_literal_for() {
    assert_eq!(simple_value_from_gast(&Constant::Char('c')), Value::Char('c'));
    assert_eq!(simple_value_from_gast(&Constant::Uint(9)), Value::Uint(9));
    let g = GAst::List(Box::new(List(
        vec![
            GAst::Const(Constant::Sym(sym("fact"))),
            GAst::Const(Constant::Sym(sym("p"))),
            GAst::Const(Constant::Uint(3)),
            GAst::Const(Constant::Char('z')),
        ],
        None,
    )));
    let mut db = Database::new();
    let mut scope = Scope::new();
    assert_eq!(database_load(&mut db, &mut scope, &g), Ok(()));
    assert_eq!(db.facts.get(&sym("p"), 2).unwrap().0[0].0, vec![Value::Uint(3), Value::Char('z')]);
}

#[test]
fn pieces_of_forms() {
    let g = read("(exists (a b) forall (p a) (q b))");
    let items = headed_items(&g, "exists", 3).unwrap();
    assert_eq!(items.len(), 5);
    assert!(headed_items(&g, "exists", 6).is_none());
    assert!(headed_items(&g, "forall", 1).is_none());
    assert!(headed_items(&dotted("(exists)", "x"), "exists", 1).is_none());
    assert!(headed_items(&read("exists"), "exists", 1).is_none());
    assert!(has_head(items, "exists"));
    assert!(!has_head(items, "forall"));
    assert!(has_head_at(items, 2, "forall"));
    assert!(!has_head_at(items, 5, "forall"));
    assert!(!has_head(&vec![], "exists"));
    assert_eq!(exprs_from_gast(items, 5), Some(vec![]));
    assert_eq!(exprs_from_gast(items, 9), Some(vec![]));
    assert_eq!(symbols_from_gast(items, 7), Some(vec![]));
    assert_eq!(goals_from_gast(items, 6).map(|g| g.len()), Some(0));
    assert_eq!(patterns_from_gast(items, 6).map(|p| p.len()), Some(0));
    assert!(!has_head_at(items, 1, "forall"));
    assert_eq!(symbol_from_sexpr(&items[0]), Some(&sym("exists")));
    assert_eq!(symbol_from_sexpr(&items[1]), None);
    assert_eq!(symbol_from_sexpr(&read("3")), None);
    let vars = proper_items(&items[1]).unwrap();
    assert_eq!(symbols_from_gast(vars, 0), Some(vec![sym("a"), sym("b")]));
    assert_eq!(symbols_from_gast(vars, 1), Some(vec![sym("b")]));
    assert_eq!(symbols_from_gast(vars, 2), Some(vec![]));
    assert_eq!(symbols_from_gast(items, 0), None);
    assert!(proper_items(&dotted("(a)", "b")).is_none());
    assert!(proper_items(&read("a")).is_none());
    assert_eq!(goals_from_gast(items, 3).map(|g| g.len()), Some(2));
    assert!(goals_from_gast(items, 2).is_none());
    assert_eq!(exprs_from_gast(items, 3).map(|e| e.len()), Some(2));
    assert_eq!(exprs_from_gast(items, 0).map(|e| e.len()), Some(5));
    let broken = read("(f 1 () 2)");
    assert_eq!(exprs_from_gast(proper_items(&broken).unwrap(), 1), None);
    assert_eq!(exprs_from_gast(proper_items(&broken).unwrap(), 3).map(|e| e.len()), Some(1));
    let (params, goals) = query_from_gast(&g).unwrap();
    assert_eq!(params, vec![sym("a"), sym("b")]);
    assert_eq!(goals.len(), 2);
    assert_eq!(goals[1].name, sym("q"));
    let (name, clause) = rule_from_gast(&read("(rule (r x 1) (p x) (q x x))")).unwrap();
    assert_eq!(name, sym("r"));
    assert_eq!(clause.params.len(), 2);
    assert_eq!(clause.body.len(), 2);
    assert_eq!(clause.body[1].args.len(), 2);
    let mut scope = Scope::new();
    scope.set(&sym("n"), &Value::Int(4));
    let form = read("(fact p n 'k 2)");
    let items = proper_items(&form).unwrap();
    let line = line_from_gast(items, 2, &scope).unwrap();
    assert_eq!(line.0, vec![Value::Int(4), Value::Sym(sym("k")), Value::Int(2)]);
    assert_eq!(line_from_gast(items, 1, &scope).err(), Some(Fail::UnboundVariable));
}

#[test]
fn records_load_their_own_forms_only() {
    let mut db = Database::new();
    let scope = Scope::new();
    assert_eq!(db.facts.load(&scope, &read("(fact p 1)")), Ok(()));
    assert_eq!(db.facts.load(&scope, &read("(rule (p x))")), Err(Fail::SyntaxFail));
    assert_eq!(db.facts.load(&scope, &read("(fact p x)")), Err(Fail::UnboundVariable));
    assert_eq!(db.rules.load(&scope, &read("(rule (p x))")), Ok(()));
    assert_eq!(db.rules.load(&scope, &read("(fact p 1)")), Err(Fail::SyntaxFail));
    assert_eq!(db.facts.0.len(), 1);
    assert_eq!(db.rules.0.len(), 1);
    let frame = apply_query(&db, &scope, &read("(exists () forall (p 1))"), 1).unwrap();
    assert_eq!(frame.len(), 0);
    assert_eq!(
        apply_query(&db, &scope, &read("(exists () forall (p 1))"), 0).err(),
        Some(Fail::DepthExceeded)
    );
    assert_eq!(apply_query(&db, &scope, &read("(fact p 1)"), 1).err(), Some(Fail::SyntaxFail));
}

#[test]
fn recursion_ends_at_the_bound() {
    let mut s = session();
    tell(&mut s, "(rule (forever) (forever))");
    assert_eq!(ask(&mut s, "(exists () forall (forever))"), Err(Fail::MatchFail));
    tell(&mut s, "(fact edge 'a 'b)");
    tell(&mut s, "(fact edge 'b 'c)");
    tell(&mut s, "(rule (path x y) (edge x y))");
    assert_eq!(ask(&mut s, "(exists (t) forall (path 'a t))"), Ok(pairs(&[("t", "b")])));
    assert_eq!(ask(&mut s, "(exists () forall (path 'b 'c))"), Ok(pairs(&[])));
    assert_eq!(ask(&mut s, "(exists () forall (path 'a 'c))"), Err(Fail::MatchFail));
}
