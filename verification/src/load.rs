//! The entry points of the engine: asserting facts and rules, defining
//! variables, and posing queries.
use vstd::prelude::*;
use crate::environment::{Database, DatabaseView};
use crate::eval::{eval_all, eval_spec, eval_value, eval_values};
use crate::fact::{facts_with, FactRecord, FactsView, ValueLine};
use crate::gast::{gasts_view, lemma_gasts_view, GAst, GAstView};
use crate::parser::{
    expr_from_gast, expr_of, goals_from_gast, goals_in, headed, headed_items, patterns_from_gast,
    patterns_in, symbol_from_sexpr, symbol_of, symbols_from_gast, symbols_in,
};
use crate::query::prove_goals;
use crate::rule::{
    exprs_view, goals_view, rules_with, Expr, ExprView, FactQuery, FactQueryView, RuleBody,
    RuleBodyView, RuleRecord, RulesView,
};
use crate::scope::{Bindings, ChainView, FrameView, Scope, SimpleScope};
use crate::semantics::{query_spec, self_bindings, Fail};
use crate::value::{names_of, Name, Symbol, ValueView};

verus! {

/// How many rule applications a query may nest where the caller names no
/// bound of its own.
pub const DEFAULT_DEPTH: usize = 256;

/// Asserts a ground fact: `line` becomes the last line of the fact table
/// under `name` and the length of the line. The table is created when there
/// is none; the rules do not change.
pub fn assert_fact(db: &mut Database, name: Symbol, line: ValueLine)
    requires
        old(db).wf(),
    ensures
        final(db).wf(),
        final(db)@ == (DatabaseView {
            facts: facts_with(old(db)@.facts, name@, line@),
            rules: old(db)@.rules,
        }),
{
    db.facts.assert_line(name, line);
}

/// Asserts a rule clause: `clause` becomes the last clause of the rule table
/// under `name` and the number of the clause's parameters. The table is
/// created when there is none; the facts do not change.
pub fn assert_rule(db: &mut Database, name: Symbol, clause: RuleBody)
    requires
        old(db).wf(),
    ensures
        final(db).wf(),
        final(db)@ == (DatabaseView {
            facts: old(db)@.facts,
            rules: rules_with(old(db)@.rules, name@, clause@),
        }),
{
    db.rules.assert_clause(name, clause);
}

/// Evaluates the arguments of a fact to the line of their values. The result
/// is the error of the first argument that has no value.
pub fn eval_line(exprs: &Vec<Expr>, scope: &Scope) -> (r: Result<ValueLine, Fail>)
    requires
        scope.wf(),
    ensures
        match eval_all(exprs_view(exprs@), scope.chain()) {
            Ok(values) => r matches Ok(line) && line@ == values,
            Err(e) => r matches Err(z) && z == e,
        },
{
    match eval_values(exprs, scope) {
        Ok(values) => Ok(ValueLine(values)),
        Err(e) => Err(e),
    }
}

/// Evaluates `expr` in the scope and binds `name` to its value in the
/// innermost frame. Where the expression has no value, the result is its
/// error and the scope is as it was.
pub fn define(scope: &mut Scope, name: &Symbol, expr: &Expr) -> (r: Result<(), Fail>)
    requires
        old(scope).wf(),
    ensures
        final(scope).wf(),
        final(scope).parent == old(scope).parent,
        match eval_spec(expr@, old(scope).chain()) {
            Ok(v) => r is Ok && final(scope).this_level@ == old(scope).this_level@.insert(
                name@,
                v,
            ),
            Err(e) => r == Err::<(), Fail>(e) && final(scope).this_level@ == old(scope).this_level@,
        },
{
    match eval_value(expr, scope) {
        Ok(v) => {
            scope.set(name, &v);
            Ok(())
        },
        Err(e) => Err(e),
    }
}

/// The bindings in which each of the symbols stands for itself.
pub fn own_bindings(params: &Vec<Symbol>) -> (r: Bindings)
    ensures
        r.wf(),
        r@ == self_bindings(names_of(params@)),
{
    let ghost names = names_of(params@);
    let mut capture = Bindings::new();
    let mut i: usize = 0;
    proof {
        assert(capture@ =~= self_bindings(names.take(0)));
    }
    while i < params.len()
        invariant
            i <= params.len(),
            capture.wf(),
            names == names_of(params@),
            capture@ == self_bindings(names.take(i as int)),
        decreases params.len() - i,
    {
        let e = Expr::Variable(params[i].clone());
        capture.insert(&params[i], &e);
        proof {
            let before = names.take(i as int);
            let after = names.take(i + 1);
            assert(after =~= before.push(names[i as int]));
            assert forall|k: Name| after.contains(k) <==> before.contains(k) || k
                == names[i as int] by {
                if before.contains(k) {
                    let j = before.index_of(k);
                    assert(0 <= j < before.len() && before[j] == k);
                    assert(after[j] == k);
                }
                if k == names[i as int] {
                    assert(after[i as int] == k);
                }
                if after.contains(k) {
                    let j = after.index_of(k);
                    assert(0 <= j < after.len() && after[j] == k);
                    if j < i {
                        assert(before[j] == k);
                    }
                }
            }
            assert(capture@ =~= self_bindings(after));
        }
        i = i + 1;
    }
    proof {
        assert(names.take(params.len() as int) =~= names);
    }
    capture
}

/// Poses a query: the goals are proved in order in one fresh frame inside
/// `scope`, with each of `params` bound to itself as a free variable. On
/// success the result is that frame with the bindings the proof made; the
/// scope itself does not change. `depth` bounds how many rule applications
/// may be nested.
pub fn query(
    db: &Database,
    scope: &Scope,
    params: &Vec<Symbol>,
    goals: &Vec<FactQuery>,
    depth: usize,
) -> (r: Result<SimpleScope, Fail>)
    requires
        db.wf(),
        scope.wf(),
    ensures
        match query_spec(db@, scope.chain(), names_of(params@), goals_view(goals@), depth as nat) {
            Ok(f) => r matches Ok(w) && w.wf() && w@ == f,
            Err(e) => r matches Err(z) && z == e,
        },
{
    let capture = own_bindings(params);
    let mut inner = scope.new_level(SimpleScope::new());
    match prove_goals(goals, db, &mut inner, &capture, depth) {
        Ok(()) => Ok(inner.this_level),
        Err(e) => Err(e),
    }
}

/// The fact that a tree states, as the name of its predicate and all the
/// items of the form: `(fact name expr ...)`.
pub open spec fn fact_form(g: GAstView) -> Option<(Name, Seq<GAstView>)> {
    match headed(g, "fact"@, 2) {
        Some(items) => match symbol_of(items[1]) {
            Some(name) => Some((name, items)),
            None => None,
        },
        None => None,
    }
}

/// The values of the items from `start` up to `end`, each read as an
/// expression and evaluated, or the error of the first item that cannot be
/// read or has no value.
pub open spec fn line_in(items: Seq<GAstView>, start: int, end: int, env: ChainView) -> Result<
    Seq<ValueView>,
    Fail,
>
    decreases end - start,
{
    if start < 0 || end <= start || end > items.len() {
        Ok(Seq::empty())
    } else {
        match line_in(items, start, end - 1, env) {
            Err(e) => Err(e),
            Ok(prefix) => match expr_of(items[end - 1]) {
                None => Err(Fail::SyntaxFail),
                Some(e) => match eval_spec(e, env) {
                    Err(x) => Err(x),
                    Ok(v) => Ok(prefix.push(v)),
                },
            },
        }
    }
}

/// An error among the items up to `mid` is the error of the items up to a
/// later end.
pub proof fn lemma_line_in_err(items: Seq<GAstView>, start: int, mid: int, end: int, env: ChainView)
    requires
        0 <= start <= mid <= end <= items.len(),
        line_in(items, start, mid, env) is Err,
    ensures
        line_in(items, start, end, env) == line_in(items, start, mid, env),
    decreases end - mid,
{
    if mid < end {
        lemma_line_in_err(items, start, mid, end - 1, env);
    }
}

/// The fact tables after a fact form was loaded: the arguments are evaluated
/// in `env`, and their values are asserted as one line.
pub open spec fn load_fact_spec(facts: FactsView, env: ChainView, g: GAstView) -> Result<
    FactsView,
    Fail,
> {
    match fact_form(g) {
        None => Err(Fail::SyntaxFail),
        Some((name, items)) => match line_in(items, 2, items.len() as int, env) {
            Err(e) => Err(e),
            Ok(line) => Ok(facts_with(facts, name, line)),
        },
    }
}

/// The clause that a tree states, with the name of its predicate:
/// `(rule (name pattern ...) goal ...)`.
pub open spec fn rule_of(g: GAstView) -> Option<(Name, RuleBodyView)> {
    match headed(g, "rule"@, 2) {
        Some(items) => match items[1] {
            GAstView::List(head, None) => if head.len() >= 1 {
                match symbol_of(head[0]) {
                    Some(name) => match patterns_in(head, 1, head.len() as int) {
                        Some(params) => match goals_in(items, 2, items.len() as int) {
                            Some(body) => Some((name, RuleBodyView { params: params, body: body })),
                            None => None,
                        },
                        None => None,
                    },
                    None => None,
                }
            } else {
                None
            },
            _ => None,
        },
        None => None,
    }
}

/// The rule tables after a rule form was loaded.
pub open spec fn load_rule_spec(rules: RulesView, g: GAstView) -> Result<RulesView, Fail> {
    match rule_of(g) {
        Some((name, clause)) => Ok(rules_with(rules, name, clause)),
        None => Err(Fail::SyntaxFail),
    }
}

/// The definition that a tree states, as the symbol and the expression:
/// `(define name expr)`.
pub open spec fn definition_of(g: GAstView) -> Option<(Name, ExprView)> {
    match headed(g, "define"@, 3) {
        Some(items) => match symbol_of(items[1]) {
            Some(name) => match expr_of(items[2]) {
                Some(e) => Some((name, e)),
                None => None,
            },
            None => None,
        },
        None => None,
    }
}

/// The query that a tree states, as its variables and its goals:
/// `(exists (variable ...) forall goal ...)`.
pub open spec fn query_of(g: GAstView) -> Option<(Seq<Name>, Seq<FactQueryView>)> {
    match headed(g, "exists"@, 3) {
        Some(items) => if symbol_of(items[2]) == Some("forall"@) {
            match items[1] {
                GAstView::List(ps, None) => match symbols_in(ps, 0, ps.len() as int) {
                    Some(params) => match goals_in(items, 3, items.len() as int) {
                        Some(goals) => Some((params, goals)),
                        None => None,
                    },
                    None => None,
                },
                _ => None,
            }
        } else {
            None
        },
        None => None,
    }
}

/// What loading a form makes of the database and of the innermost frame: a
/// fact form adds a line, a rule form adds a clause, and a definition binds
/// a symbol. Any other tree is an error.
pub open spec fn load_spec(db: DatabaseView, env: ChainView, g: GAstView) -> Result<
    (DatabaseView, FrameView),
    Fail,
> {
    if headed(g, "fact"@, 2) is Some {
        match load_fact_spec(db.facts, env, g) {
            Ok(facts) => Ok((DatabaseView { facts: facts, rules: db.rules }, env[0])),
            Err(e) => Err(e),
        }
    } else if headed(g, "rule"@, 2) is Some {
        match load_rule_spec(db.rules, g) {
            Ok(rules) => Ok((DatabaseView { facts: db.facts, rules: rules }, env[0])),
            Err(e) => Err(e),
        }
    } else {
        match definition_of(g) {
            None => Err(Fail::SyntaxFail),
            Some((name, e)) => match eval_spec(e, env) {
                Ok(v) => Ok((db, env[0].insert(name, v))),
                Err(x) => Err(x),
            },
        }
    }
}

/// The bindings that a query form yields.
pub open spec fn apply_spec(db: DatabaseView, env: ChainView, g: GAstView, depth: nat) -> Result<
    FrameView,
    Fail,
> {
    match query_of(g) {
        None => Err(Fail::SyntaxFail),
        Some((params, goals)) => query_spec(db, env, params, goals, depth),
    }
}

/// Whether the tree begins as a fact, a rule or a definition does.
pub open spec fn is_statement(g: GAstView) -> bool {
    headed(g, "fact"@, 2) is Some || headed(g, "rule"@, 2) is Some || headed(g, "define"@, 3)
        is Some
}

/// A table record that forms can be loaded into.
pub trait Loader: Sized {
    /// The record is well formed.
    spec fn valid(&self) -> bool;

    /// Loading `input` in `env` gives the result `r` and leaves the record
    /// `after`.
    spec fn loads(&self, env: ChainView, input: GAstView, r: Result<(), Fail>, after: &Self) -> bool;

    /// Loads one form into the record. Where the result is an error the
    /// record is as it was.
    fn load(&mut self, env: &Scope, input: &GAst) -> (r: Result<(), Fail>)
        requires
            old(self).valid(),
            env.wf(),
        ensures
            final(self).valid(),
            old(self).loads(env.chain(), input@, r, final(self)),
    ;
}

/// Reads the items from `start` on as expressions and evaluates each.
pub fn line_from_gast(items: &Vec<GAst>, start: usize, env: &Scope) -> (r: Result<ValueLine, Fail>)
    requires
        env.wf(),
    ensures
        match line_in(gasts_view(items@), start as int, items.len() as int, env.chain()) {
            Ok(values) => r matches Ok(line) && line@ == values,
            Err(e) => r matches Err(z) && z == e,
        },
{
    let ghost iv = gasts_view(items@);
    proof {
        lemma_gasts_view(items@);
    }
    let mut out: Vec<crate::value::Value> = Vec::new();
    let mut i: usize = start;
    proof {
        crate::value::lemma_views_of(out@);
        assert(crate::value::views_of(out@) =~= Seq::<ValueView>::empty());
    }
    while i < items.len()
        invariant
            start <= i,
            i <= items.len() || i == start,
            env.wf(),
            iv == gasts_view(items@),
            iv.len() == items.len(),
            forall|j: int| 0 <= j < items.len() ==> #[trigger] iv[j] == items[j]@,
            line_in(iv, start as int, i as int, env.chain()) == Ok::<Seq<ValueView>, Fail>(
                crate::value::views_of(out@),
            ),
        decreases items.len() - i,
    {
        let e = match expr_from_gast(&items[i]) {
            Some(e) => e,
            None => {
                proof {
                    assert(line_in(iv, start as int, i + 1, env.chain()) == Err::<
                        Seq<ValueView>,
                        Fail,
                    >(Fail::SyntaxFail));
                    lemma_line_in_err(iv, start as int, i + 1, items.len() as int, env.chain());
                }
                return Err(Fail::SyntaxFail);
            },
        };
        match eval_value(&e, env) {
            Ok(v) => {
                proof {
                    crate::value::lemma_views_of_push(out@, v);
                }
                out.push(v);
            },
            Err(x) => {
                proof {
                    assert(line_in(iv, start as int, i + 1, env.chain()) == Err::<
                        Seq<ValueView>,
                        Fail,
                    >(x));
                    lemma_line_in_err(iv, start as int, i + 1, items.len() as int, env.chain());
                }
                return Err(x);
            },
        }
        i = i + 1;
    }
    Ok(ValueLine(out))
}

impl Loader for FactRecord {
    open spec fn valid(&self) -> bool {
        self.wf()
    }

    open spec fn loads(
        &self,
        env: ChainView,
        input: GAstView,
        r: Result<(), Fail>,
        after: &Self,
    ) -> bool {
        match load_fact_spec(self@, env, input) {
            Ok(facts) => r is Ok && after@ == facts,
            Err(e) => r == Err::<(), Fail>(e) && after@ == self@,
        }
    }

    /// Loads a fact form: `(fact name expr ...)`. The arguments are
    /// evaluated in `env` and their values asserted as one line.
    fn load(&mut self, env: &Scope, input: &GAst) -> (r: Result<(), Fail>) {
        let items = match headed_items(input, "fact", 2) {
            Some(items) => items,
            None => {
                return Err(Fail::SyntaxFail);
            },
        };
        proof {
            lemma_gasts_view(items@);
        }
        let name = match symbol_from_sexpr(&items[1]) {
            Some(name) => name,
            None => {
                return Err(Fail::SyntaxFail);
            },
        };
        match line_from_gast(items, 2, env) {
            Ok(line) => {
                self.assert_line(name.clone(), line);
                Ok(())
            },
            Err(e) => Err(e),
        }
    }
}

/// Reads a rule form: the name of the predicate and the clause.
pub fn rule_from_gast(input: &GAst) -> (r: Option<(Symbol, RuleBody)>)
    ensures
        match rule_of(input@) {
            Some((name, clause)) => r matches Some(x) && x.0@ == name && x.1@ == clause,
            None => r is None,
        },
{
    let items = match headed_items(input, "rule", 2) {
        Some(items) => items,
        None => {
            return None;
        },
    };
    proof {
        lemma_gasts_view(items@);
    }
    let head = match crate::parser::proper_items(&items[1]) {
        Some(head) => head,
        None => {
            return None;
        },
    };
    if head.len() < 1 {
        return None;
    }
    proof {
        lemma_gasts_view(head@);
    }
    let name = match symbol_from_sexpr(&head[0]) {
        Some(name) => name,
        None => {
            return None;
        },
    };
    let params = match patterns_from_gast(head, 1) {
        Some(params) => params,
        None => {
            return None;
        },
    };
    let body = match goals_from_gast(items, 2) {
        Some(body) => body,
        None => {
            return None;
        },
    };
    Some((name.clone(), RuleBody { params: params, body: body }))
}

impl Loader for RuleRecord {
    open spec fn valid(&self) -> bool {
        self.wf()
    }

    open spec fn loads(
        &self,
        env: ChainView,
        input: GAstView,
        r: Result<(), Fail>,
        after: &Self,
    ) -> bool {
        match load_rule_spec(self@, input) {
            Ok(rules) => r is Ok && after@ == rules,
            Err(e) => r == Err::<(), Fail>(e) && after@ == self@,
        }
    }

    /// Loads a rule form: `(rule (name pattern ...) goal ...)`. The clause
    /// is asserted under the name and the number of its patterns.
    fn load(&mut self, env: &Scope, input: &GAst) -> (r: Result<(), Fail>) {
        match rule_from_gast(input) {
            Some((name, clause)) => {
                self.assert_clause(name, clause);
                Ok(())
            },
            None => Err(Fail::SyntaxFail),
        }
    }
}

/// Loads one form: a fact into the fact tables, a rule into the rule tables,
/// or a definition `(define name expr)` into the innermost frame of the
/// scope. Where the result is an error the database and the scope are as
/// they were.
pub fn database_load(db: &mut Database, env: &mut Scope, input: &GAst) -> (r: Result<(), Fail>)
    requires
        old(db).wf(),
        old(env).wf(),
    ensures
        final(db).wf(),
        final(env).wf(),
        final(env).parent == old(env).parent,
        match load_spec(old(db)@, old(env).chain(), input@) {
            Ok((d, f)) => r is Ok && final(db)@ == d && final(env).this_level@ == f,
            Err(e) => r == Err::<(), Fail>(e) && final(db)@ == old(db)@ && final(env).this_level@ == old(env).this_level@,
        },
{
    proof {
        env.lemma_chain();
    }
    if headed_items(input, "fact", 2).is_some() {
        db.facts.load(env, input)
    } else if headed_items(input, "rule", 2).is_some() {
        db.rules.load(env, input)
    } else {
        let items = match headed_items(input, "define", 3) {
            Some(items) => items,
            None => {
                return Err(Fail::SyntaxFail);
            },
        };
        proof {
            lemma_gasts_view(items@);
        }
        let name = match symbol_from_sexpr(&items[1]) {
            Some(name) => name,
            None => {
                return Err(Fail::SyntaxFail);
            },
        };
        let expr = match expr_from_gast(&items[2]) {
            Some(expr) => expr,
            None => {
                return Err(Fail::SyntaxFail);
            },
        };
        define(env, name, &expr)
    }
}

/// Reads a query form: its variables and its goals.
pub fn query_from_gast(input: &GAst) -> (r: Option<(Vec<Symbol>, Vec<FactQuery>)>)
    ensures
        match query_of(input@) {
            Some((params, goals)) => r matches Some(x) && names_of(x.0@) == params && goals_view(
                x.1@,
            ) == goals,
            None => r is None,
        },
{
    let items = match headed_items(input, "exists", 3) {
        Some(items) => items,
        None => {
            return None;
        },
    };
    proof {
        lemma_gasts_view(items@);
    }
    if !crate::parser::has_head_at(items, 2, "forall") {
        return None;
    }
    let vars = match crate::parser::proper_items(&items[1]) {
        Some(vars) => vars,
        None => {
            return None;
        },
    };
    let params = match symbols_from_gast(vars, 0) {
        Some(params) => params,
        None => {
            return None;
        },
    };
    let goals = match goals_from_gast(items, 3) {
        Some(goals) => goals,
        None => {
            return None;
        },
    };
    Some((params, goals))
}

/// Poses the query that a tree states, `(exists (variable ...) forall goal ...)`,
/// and gives the bindings that the proof of its goals made. The scope does
/// not change. `depth` bounds how many rule applications may be nested.
pub fn apply_query(db: &Database, scope: &Scope, input: &GAst, depth: usize) -> (r: Result<
    SimpleScope,
    Fail,
>)
    requires
        db.wf(),
        scope.wf(),
    ensures
        match apply_spec(db@, scope.chain(), input@, depth as nat) {
            Ok(f) => r matches Ok(w) && w.wf() && w@ == f,
            Err(e) => r matches Err(z) && z == e,
        },
{
    match query_from_gast(input) {
        Some((params, goals)) => query(db, scope, &params, &goals, depth),
        None => Err(Fail::SyntaxFail),
    }
}

/// Evaluates one form of the interactive session. A fact, a rule or a
/// definition is loaded, and the result holds no bindings; any other tree is
/// posed as a query, and the result holds the bindings it made. Where the
/// result is an error the database and the scope are as they were.
pub fn repl_eval(db: &mut Database, env: &mut Scope, input: &GAst, depth: usize) -> (r: Result<
    Option<SimpleScope>,
    Fail,
>)
    requires
        old(db).wf(),
        old(env).wf(),
    ensures
        final(db).wf(),
        final(env).wf(),
        final(env).parent == old(env).parent,
        is_statement(input@) ==> match load_spec(old(db)@, old(env).chain(), input@) {
            Ok((d, f)) => r matches Ok(None) && final(db)@ == d && final(env).this_level@ == f,
            Err(e) => r matches Err(z) && z == e && final(db)@ == old(db)@ && final(env).this_level@ == old(env).this_level@,
        },
        !is_statement(input@) ==> final(db)@ == old(db)@ && final(env).this_level@ == old(env).this_level@ && match apply_spec(old(db)@, old(env).chain(), input@, depth as nat) {
            Ok(f) => r matches Ok(Some(w)) && w.wf() && w@ == f,
            Err(e) => r matches Err(z) && z == e,
        },
{
    if headed_items(input, "fact", 2).is_some() || headed_items(input, "rule", 2).is_some()
        || headed_items(input, "define", 3).is_some() {
        match database_load(db, env, input) {
            Ok(()) => Ok(None),
            Err(e) => Err(e),
        }
    } else {
        match apply_query(db, env, input, depth) {
            Ok(w) => Ok(Some(w)),
            Err(e) => Err(e),
        }
    }
}

} // verus!
