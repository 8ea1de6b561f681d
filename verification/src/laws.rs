//! Laws of the resolution: what holds of every proof, whatever the database
//! and the goal.
use vstd::prelude::*;
use crate::environment::DatabaseView;
use crate::fact::{facts_with, lines_of};
use crate::record::Key;
use crate::rule::{ExprView, FactQueryView, RuleBodyView};
use crate::scope::{lemma_lookup_with_frame, lookup, with_frame, BindingsView, ChainView, FrameView};
use crate::semantics::{
    binding_spec, bound_args, clause_witness, consistent, first_clause, first_line, line_witness,
    merge_spec, merged, prove_all, prove_spec, query_spec, self_bindings, unify_from, unify_spec,
    Fail,
};
use crate::value::{Name, ValueView};

verus! {

/// The frame binds only symbols that the chain leaves unbound.
pub open spec fn fresh_in(frame: FrameView, env: ChainView) -> bool {
    forall|k: Name| #[trigger] frame.contains_key(k) ==> lookup(env, k) is None
}

/// The second frame has every binding of the first, unchanged.
pub open spec fn extends(small: FrameView, large: FrameView) -> bool {
    forall|k: Name| #[trigger]
        small.contains_key(k) ==> large.contains_key(k) && large[k] == small[k]
}

/// A chain with its innermost frame replaced is that frame before the rest.
pub proof fn lemma_replace_innermost(frame: FrameView, env: ChainView, next: FrameView)
    ensures
        with_frame(frame, env).update(0, next) == with_frame(next, env),
        with_frame(frame, env)[0] == frame,
{
    assert(with_frame(frame, env).update(0, next) =~= with_frame(next, env));
}

/// Unifying a line inside a chain binds only symbols that the chain leaves
/// unbound.
pub proof fn lemma_unify_from_fresh(
    args: Seq<ExprView>,
    line: Seq<ValueView>,
    frame: FrameView,
    env: ChainView,
    i: int,
)
    requires
        fresh_in(frame, env),
        unify_from(args, line, with_frame(frame, env), i) is Ok,
    ensures
        fresh_in(unify_from(args, line, with_frame(frame, env), i)->Ok_0, env),
    decreases args.len() - i,
{
    let chain = with_frame(frame, env);
    if i < 0 || i >= args.len() || i >= line.len() {
    } else {
        let next = unify_spec(args[i], line[i], chain)->Ok_0;
        lemma_replace_innermost(frame, env, next);
        assert forall|k: Name| #[trigger] next.contains_key(k) implies lookup(env, k) is None by {
            lemma_lookup_with_frame(frame, env, k);
        }
        lemma_unify_from_fresh(args, line, next, env, i + 1);
    }
}

/// The witness of a fact table binds only symbols that the chain leaves
/// unbound.
pub proof fn lemma_first_line_fresh(
    table: Seq<Seq<ValueView>>,
    args: Seq<ExprView>,
    env: ChainView,
    i: int,
)
    requires
        first_line(table, args, env, i) is Ok,
    ensures
        fresh_in(first_line(table, args, env, i)->Ok_0, env),
    decreases table.len() - i,
{
    if 0 <= i < table.len() {
        if line_witness(table[i], args, env) is Ok {
            lemma_unify_from_fresh(args, table[i], FrameView::empty(), env, 0);
        } else {
            lemma_first_line_fresh(table, args, env, i + 1);
        }
    }
}

/// A proved goal leaves every binding of the innermost frame as it was, and
/// binds besides only symbols that the whole chain left unbound.
pub proof fn lemma_prove_extends(
    db: DatabaseView,
    goal: FactQueryView,
    env: ChainView,
    bindings: BindingsView,
    depth: nat,
)
    requires
        env.len() > 0,
        prove_spec(db, goal, env, bindings, depth) is Ok,
    ensures
        extends(env[0], prove_spec(db, goal, env, bindings, depth)->Ok_0),
        forall|k: Name| #[trigger]
            prove_spec(db, goal, env, bindings, depth)->Ok_0.contains_key(k) ==> env[0].contains_key(
                k,
            ) || lookup(env, k) is None,
{
}

/// Proving goals in order inside a chain binds only symbols that the chain
/// leaves unbound.
pub proof fn lemma_prove_all_fresh(
    db: DatabaseView,
    goals: Seq<FactQueryView>,
    frame: FrameView,
    env: ChainView,
    bindings: BindingsView,
    depth: nat,
    i: int,
)
    requires
        fresh_in(frame, env),
        prove_all(db, goals, with_frame(frame, env), bindings, depth, i) is Ok,
    ensures
        fresh_in(prove_all(db, goals, with_frame(frame, env), bindings, depth, i)->Ok_0, env),
    decreases goals.len() - i,
{
    let chain = with_frame(frame, env);
    if i < 0 || i >= goals.len() {
    } else {
        let next = prove_spec(db, goals[i], chain, bindings, depth)->Ok_0;
        lemma_prove_extends(db, goals[i], chain, bindings, depth);
        lemma_replace_innermost(frame, env, next);
        assert forall|k: Name| #[trigger] next.contains_key(k) implies lookup(env, k) is None by {
            lemma_lookup_with_frame(frame, env, k);
        }
        lemma_prove_all_fresh(db, goals, next, env, bindings, depth, i + 1);
    }
}

/// The witness of a rule table binds only symbols that the chain leaves
/// unbound.
pub proof fn lemma_first_clause_fresh(
    db: DatabaseView,
    table: Seq<RuleBodyView>,
    args: Seq<ExprView>,
    env: ChainView,
    depth: nat,
    i: int,
)
    requires
        first_clause(db, table, args, env, depth, i) is Ok,
    ensures
        fresh_in(first_clause(db, table, args, env, depth, i)->Ok_0, env),
    decreases table.len() - i,
{
    if 0 <= i < table.len() {
        if clause_witness(db, table[i], args, env, depth) is Ok {
            let capture = crate::semantics::match_from(
                table[i].params,
                args,
                BindingsView::empty(),
                0,
            )->Ok_0;
            lemma_prove_all_fresh(db, table[i].body, FrameView::empty(), env, capture, depth, 0);
        } else {
            lemma_first_clause_fresh(db, table, args, env, depth, i + 1);
        }
    }
}

/// A witness that binds only unbound symbols agrees with the chain, and
/// merging it adds all its bindings to the innermost frame.
pub proof fn lemma_merge_fresh(witness: FrameView, env: ChainView)
    requires
        env.len() > 0,
        fresh_in(witness, env),
    ensures
        merge_spec(witness, env) == Ok::<FrameView, Fail>(env[0].union_prefer_right(witness)),
{
    assert(consistent(witness, env));
    assert(merged(witness, env) =~= env[0].union_prefer_right(witness));
}

/// Within one resolution no symbol is ever bound to two values: a witness
/// found in order always agrees with the scope it is merged into, so a proof
/// fails only for a variable without a binding, for a missing table, for
/// want of an alternative that holds, or at the bound of nesting.
pub proof fn law_merge_never_fails(
    db: DatabaseView,
    goal: FactQueryView,
    env: ChainView,
    bindings: BindingsView,
    depth: nat,
)
    requires
        env.len() > 0,
    ensures
        match prove_spec(db, goal, env, bindings, depth) {
            Ok(_) => true,
            Err(e) => e == Fail::UnboundVariable || e == Fail::ArityMismatch || e
                == Fail::UnifyFail || e == Fail::MatchFail || e == Fail::DepthExceeded,
        },
{
    match bound_args(goal.args, bindings) {
        Err(e) => {},
        Ok(args) => {
            let key = (goal.name, args.len());
            if db.rules.contains_key(key) {
                if depth > 0 {
                    let d = (depth - 1) as nat;
                    lemma_first_clause_errors(db, db.rules[key], args, env, d, 0);
                    if first_clause(db, db.rules[key], args, env, d, 0) is Ok {
                        lemma_first_clause_fresh(db, db.rules[key], args, env, d, 0);
                        lemma_merge_fresh(first_clause(db, db.rules[key], args, env, d, 0)->Ok_0, env);
                    }
                }
            } else if db.facts.contains_key(key) {
                lemma_first_line_errors(db.facts[key], args, env, 0);
                if first_line(db.facts[key], args, env, 0) is Ok {
                    lemma_first_line_fresh(db.facts[key], args, env, 0);
                    lemma_merge_fresh(first_line(db.facts[key], args, env, 0)->Ok_0, env);
                }
            }
        },
    }
}

/// A fact table fails only because no line unifies.
pub proof fn lemma_first_line_errors(
    table: Seq<Seq<ValueView>>,
    args: Seq<ExprView>,
    env: ChainView,
    i: int,
)
    ensures
        first_line(table, args, env, i) is Err ==> first_line(table, args, env, i) == Err::<
            FrameView,
            Fail,
        >(Fail::UnifyFail),
    decreases table.len() - i,
{
    if 0 <= i < table.len() {
        lemma_first_line_errors(table, args, env, i + 1);
    }
}

/// A rule table fails only because no clause can be proved.
pub proof fn lemma_first_clause_errors(
    db: DatabaseView,
    table: Seq<RuleBodyView>,
    args: Seq<ExprView>,
    env: ChainView,
    depth: nat,
    i: int,
)
    ensures
        first_clause(db, table, args, env, depth, i) is Err ==> first_clause(
            db,
            table,
            args,
            env,
            depth,
            i,
        ) == Err::<FrameView, Fail>(Fail::MatchFail),
    decreases table.len() - i,
{
    if 0 <= i < table.len() {
        lemma_first_clause_errors(db, table, args, env, depth, i + 1);
    }
}

/// A proof never changes a binding: what the scope bound before a goal was
/// proved it binds to the same value afterwards.
pub proof fn law_bindings_are_kept(
    db: DatabaseView,
    goal: FactQueryView,
    env: ChainView,
    bindings: BindingsView,
    depth: nat,
    k: Name,
)
    requires
        env.len() > 0,
        prove_spec(db, goal, env, bindings, depth) is Ok,
        lookup(env, k) is Some,
    ensures
        lookup(env.update(0, prove_spec(db, goal, env, bindings, depth)->Ok_0), k) == lookup(
            env,
            k,
        ),
{
    let next = prove_spec(db, goal, env, bindings, depth)->Ok_0;
    lemma_prove_extends(db, goal, env, bindings, depth);
    crate::query::lemma_update_lookup(env, next, k);
}

/// The same for a conjunction: proving goals in order never changes a
/// binding that the scope had before.
pub proof fn law_conjunction_keeps_bindings(
    db: DatabaseView,
    goals: Seq<FactQueryView>,
    env: ChainView,
    bindings: BindingsView,
    depth: nat,
    i: int,
    k: Name,
)
    requires
        env.len() > 0,
        prove_all(db, goals, env, bindings, depth, i) is Ok,
        lookup(env, k) is Some,
    ensures
        lookup(env.update(0, prove_all(db, goals, env, bindings, depth, i)->Ok_0), k) == lookup(
            env,
            k,
        ),
    decreases goals.len() - i,
{
    if i < 0 || i >= goals.len() {
        assert(env.update(0, env[0]) =~= env);
    } else {
        let next = prove_spec(db, goals[i], env, bindings, depth)->Ok_0;
        law_bindings_are_kept(db, goals[i], env, bindings, depth, k);
        law_conjunction_keeps_bindings(db, goals, env.update(0, next), bindings, depth, i + 1, k);
        let last = prove_all(db, goals, env, bindings, depth, i)->Ok_0;
        assert(env.update(0, next).update(0, last) =~= env.update(0, last));
    }
}

/// Values as the arguments of a goal: each one a literal.
pub open spec fn literals(values: Seq<ValueView>) -> Seq<ExprView> {
    Seq::new(values.len(), |i: int| ExprView::Value(values[i]))
}

/// Literal arguments are not changed by the caller's bindings.
pub proof fn lemma_bound_literals(values: Seq<ValueView>, bindings: BindingsView)
    ensures
        bound_args(literals(values), bindings) == Ok::<Seq<ExprView>, Fail>(literals(values)),
{
    let args = literals(values);
    assert forall|i: int| 0 <= i < args.len() implies (#[trigger] binding_spec(
        args[i],
        bindings,
    )) is Ok by {}
    assert(bound_args(args, bindings)->Ok_0 =~= args);
}

/// Literal arguments unify with a line of their length exactly when they
/// are the values of the line, and they bind nothing.
pub proof fn lemma_unify_literals(
    values: Seq<ValueView>,
    line: Seq<ValueView>,
    chain: ChainView,
    i: int,
)
    requires
        chain.len() > 0,
        0 <= i,
        values.len() == line.len(),
    ensures
        unify_from(literals(values), line, chain, i) == if forall|j: int|
            i <= j < line.len() ==> line[j] == values[j] {
            Ok::<FrameView, Fail>(chain[0])
        } else {
            Err::<FrameView, Fail>(Fail::UnifyFail)
        },
    decreases line.len() - i,
{
    if i < line.len() {
        if line[i] == values[i] {
            assert(chain.update(0, chain[0]) =~= chain);
            lemma_unify_literals(values, line, chain, i + 1);
            if forall|j: int| i + 1 <= j < line.len() ==> line[j] == values[j] {
                assert forall|j: int| i <= j < line.len() implies line[j] == values[j] by {}
            }
        }
    }
}

/// A table whose lines all have the length of the literal arguments yields a
/// witness exactly when one of its lines holds the values, and the witness
/// binds nothing.
pub proof fn lemma_first_line_literals(
    table: Seq<Seq<ValueView>>,
    values: Seq<ValueView>,
    env: ChainView,
    i: int,
)
    requires
        0 <= i,
        forall|j: int| 0 <= j < table.len() ==> (#[trigger] table[j]).len() == values.len(),
    ensures
        first_line(table, literals(values), env, i) == if exists|j: int|
            i <= j < table.len() && table[j] == values {
            Ok::<FrameView, Fail>(FrameView::empty())
        } else {
            Err::<FrameView, Fail>(Fail::UnifyFail)
        },
    decreases table.len() - i,
{
    if i < table.len() {
        let chain = with_frame(FrameView::empty(), env);
        lemma_unify_literals(values, table[i], chain, 0);
        if forall|j: int| 0 <= j < table[i].len() ==> table[i][j] == values[j] {
            assert(table[i] =~= values);
        } else {
            lemma_first_line_literals(table, values, env, i + 1);
            if exists|j: int| i <= j < table.len() && table[j] == values {
                let j = choose|j: int| i <= j < table.len() && table[j] == values;
                assert(i + 1 <= j);
            }
        }
    }
}

/// A goal whose arguments are all literals, for a predicate that has facts
/// and no rules, is proved exactly when a stored line holds those values;
/// the proof then binds nothing. Where no stored line holds them the goal
/// fails, so changing one argument of a stored line either fails or finds
/// another line.
pub proof fn law_ground_goal(
    db: DatabaseView,
    name: Name,
    values: Seq<ValueView>,
    env: ChainView,
    bindings: BindingsView,
    depth: nat,
)
    requires
        db.well_formed(),
        env.len() > 0,
        !db.rules.contains_key((name, values.len())),
    ensures
        ({
            let goal = FactQueryView { name: name, args: literals(values) };
            let stored = lines_of(db.facts, (name, values.len()));
            &&& stored.contains(values) ==> prove_spec(db, goal, env, bindings, depth) == Ok::<
                FrameView,
                Fail,
            >(env[0])
            &&& !stored.contains(values) ==> prove_spec(db, goal, env, bindings, depth) is Err
        }),
{
    let key = (name, values.len());
    let stored = lines_of(db.facts, key);
    lemma_bound_literals(values, bindings);
    if db.facts.contains_key(key) {
        assert forall|j: int| 0 <= j < stored.len() implies (#[trigger] stored[j]).len()
            == values.len() by {
            assert(db.facts[key][j].len() == key.1);
        }
        lemma_first_line_literals(stored, values, env, 0);
        if stored.contains(values) {
            let j = stored.index_of(values);
            assert(0 <= j < stored.len() && stored[j] == values);
            assert(consistent(FrameView::empty(), env));
            assert(merged(FrameView::empty(), env) =~= env[0]);
        }
    }
}

/// Every line has the length of its key also after a fact was asserted.
pub proof fn lemma_with_fact_well_formed(db: DatabaseView, name: Name, line: Seq<ValueView>)
    requires
        db.well_formed(),
    ensures
        with_fact(db, name, line).well_formed(),
{
    let after = with_fact(db, name, line);
    let added = (name, line.len());
    assert forall|key: Key, i: int|
        after.facts.contains_key(key) && 0 <= i < after.facts[key].len() implies (
    #[trigger] after.facts[key][i]).len() == key.1 by {
        if key == added {
            if db.facts.contains_key(key) && i < db.facts[key].len() {
                assert(after.facts[key][i] == db.facts[key][i]);
            }
        } else {
            assert(after.facts[key][i] == db.facts[key][i]);
        }
    }
}

/// What was asserted is found: after a fact was asserted of a predicate
/// that has no rules, the goal that states the fact with literal arguments
/// is proved, and the proof binds nothing.
pub proof fn law_asserted_fact_is_found(
    db: DatabaseView,
    name: Name,
    line: Seq<ValueView>,
    env: ChainView,
    bindings: BindingsView,
    depth: nat,
)
    requires
        db.well_formed(),
        env.len() > 0,
        !db.rules.contains_key((name, line.len())),
    ensures
        prove_spec(
            with_fact(db, name, line),
            FactQueryView { name: name, args: literals(line) },
            env,
            bindings,
            depth,
        ) == Ok::<FrameView, Fail>(env[0]),
{
    let after = with_fact(db, name, line);
    lemma_with_fact_well_formed(db, name, line);
    let stored = lines_of(after.facts, (name, line.len()));
    assert(stored[stored.len() - 1] == line);
    assert(stored.contains(line));
    law_ground_goal(after, name, line, env, bindings, depth);
}

/// From position `i` on, a rule table has a witness exactly when one of its
/// clauses has.
pub proof fn lemma_first_clause_some(
    db: DatabaseView,
    table: Seq<RuleBodyView>,
    args: Seq<ExprView>,
    env: ChainView,
    depth: nat,
    i: int,
)
    requires
        0 <= i,
    ensures
        first_clause(db, table, args, env, depth, i) is Ok <==> exists|j: int|
            i <= j < table.len() && (#[trigger] clause_witness(db, table[j], args, env, depth))
                is Ok,
    decreases table.len() - i,
{
    if i < table.len() {
        lemma_first_clause_some(db, table, args, env, depth, i + 1);
        if clause_witness(db, table[i], args, env, depth) is Err {
            if exists|j: int|
                i <= j < table.len() && (#[trigger] clause_witness(db, table[j], args, env, depth))
                    is Ok {
                let j = choose|j: int|
                    i <= j < table.len() && (#[trigger] clause_witness(
                        db,
                        table[j],
                        args,
                        env,
                        depth,
                    )) is Ok;
                assert(i + 1 <= j);
            }
        }
    }
}

/// The clauses of a rule table are alternatives: the table has a witness
/// exactly when at least one clause can be proved, and the witness is that
/// of one of the clauses.
pub proof fn law_rule_table_is_disjunction(
    db: DatabaseView,
    table: Seq<RuleBodyView>,
    args: Seq<ExprView>,
    env: ChainView,
    depth: nat,
)
    ensures
        first_clause(db, table, args, env, depth, 0) is Ok <==> exists|j: int|
            0 <= j < table.len() && (#[trigger] clause_witness(db, table[j], args, env, depth))
                is Ok,
        first_clause(db, table, args, env, depth, 0) is Ok ==> exists|j: int|
            0 <= j < table.len() && (#[trigger] clause_witness(db, table[j], args, env, depth))
                == first_clause(db, table, args, env, depth, 0),
{
    lemma_first_clause_some(db, table, args, env, depth, 0);
    if first_clause(db, table, args, env, depth, 0) is Ok {
        let j = lemma_first_clause_index(db, table, args, env, depth, 0);
    }
}

/// From position `i` on, a fact table has a witness exactly when one of its
/// lines has.
pub proof fn lemma_first_line_some(
    table: Seq<Seq<ValueView>>,
    args: Seq<ExprView>,
    env: ChainView,
    i: int,
)
    requires
        0 <= i,
    ensures
        first_line(table, args, env, i) is Ok <==> exists|j: int|
            i <= j < table.len() && (#[trigger] line_witness(table[j], args, env)) is Ok,
    decreases table.len() - i,
{
    if i < table.len() {
        lemma_first_line_some(table, args, env, i + 1);
        if line_witness(table[i], args, env) is Err {
            if exists|j: int|
                i <= j < table.len() && (#[trigger] line_witness(table[j], args, env)) is Ok {
                let j = choose|j: int|
                    i <= j < table.len() && (#[trigger] line_witness(table[j], args, env)) is Ok;
                assert(i + 1 <= j);
            }
        }
    }
}

/// The lines of a fact table are alternatives: the table has a witness
/// exactly when at least one line unifies, and the witness is that of one
/// of the lines.
pub proof fn law_fact_table_is_disjunction(
    table: Seq<Seq<ValueView>>,
    args: Seq<ExprView>,
    env: ChainView,
)
    ensures
        first_line(table, args, env, 0) is Ok <==> exists|j: int|
            0 <= j < table.len() && (#[trigger] line_witness(table[j], args, env)) is Ok,
        first_line(table, args, env, 0) is Ok ==> exists|j: int|
            0 <= j < table.len() && (#[trigger] line_witness(table[j], args, env)) == first_line(
                table,
                args,
                env,
                0,
            ),
{
    lemma_first_line_some(table, args, env, 0);
    if first_line(table, args, env, 0) is Ok {
        let j = lemma_first_line_index(table, args, env, 0);
    }
}

/// Of a rule table of two clauses the witness is that of the first clause
/// where it can be proved and else that of the second: where only one of
/// them can be proved it is that one's, where both can it is one of the two
/// and never both, and the table fails only where neither can.
pub proof fn law_two_clauses(
    db: DatabaseView,
    a: RuleBodyView,
    b: RuleBodyView,
    args: Seq<ExprView>,
    env: ChainView,
    depth: nat,
)
    ensures
        ({
            let wa = clause_witness(db, a, args, env, depth);
            let wb = clause_witness(db, b, args, env, depth);
            let w = first_clause(db, seq![a, b], args, env, depth, 0);
            &&& wa is Ok ==> w == wa
            &&& wa is Err && wb is Ok ==> w == wb
            &&& wa is Err && wb is Err ==> w == Err::<FrameView, Fail>(Fail::MatchFail)
        }),
{
    let table = seq![a, b];
    assert(table[0] == a && table[1] == b);
    assert(first_clause(db, table, args, env, depth, 2) == Err::<FrameView, Fail>(Fail::MatchFail));
    assert(first_clause(db, table, args, env, depth, 1) == match clause_witness(
        db,
        b,
        args,
        env,
        depth,
    ) {
        Ok(w) => Ok(w),
        Err(_) => Err::<FrameView, Fail>(Fail::MatchFail),
    });
}

/// A goal for a predicate with a rule table of two clauses, of which at
/// least one can be proved, succeeds, and the scope gains the bindings of
/// one witness: those of the first clause where it can be proved, and else
/// those of the second.
pub proof fn law_rule_alternatives(
    db: DatabaseView,
    goal: FactQueryView,
    env: ChainView,
    bindings: BindingsView,
    depth: nat,
)
    requires
        env.len() > 0,
        depth > 0,
        bound_args(goal.args, bindings) is Ok,
        db.rules.contains_key((goal.name, bound_args(goal.args, bindings)->Ok_0.len())),
        db.rules[(goal.name, bound_args(goal.args, bindings)->Ok_0.len())].len() == 2,
    ensures
        ({
            let args = bound_args(goal.args, bindings)->Ok_0;
            let table = db.rules[(goal.name, args.len())];
            let wa = clause_witness(db, table[0], args, env, (depth - 1) as nat);
            let wb = clause_witness(db, table[1], args, env, (depth - 1) as nat);
            let r = prove_spec(db, goal, env, bindings, depth);
            &&& wa is Ok ==> r == Ok::<FrameView, Fail>(env[0].union_prefer_right(wa->Ok_0))
            &&& wa is Err && wb is Ok ==> r == Ok::<FrameView, Fail>(
                env[0].union_prefer_right(wb->Ok_0),
            )
            &&& wa is Err && wb is Err ==> r == Err::<FrameView, Fail>(Fail::MatchFail)
        }),
{
    let args = bound_args(goal.args, bindings)->Ok_0;
    let table = db.rules[(goal.name, args.len())];
    let d = (depth - 1) as nat;
    assert(table =~= seq![table[0], table[1]]);
    law_two_clauses(db, table[0], table[1], args, env, d);
    if first_clause(db, table, args, env, d, 0) is Ok {
        lemma_first_clause_fresh(db, table, args, env, d, 0);
        lemma_merge_fresh(first_clause(db, table, args, env, d, 0)->Ok_0, env);
    }
}

/// The witness of a table is the witness of one of its lines.
pub proof fn lemma_first_line_index(
    table: Seq<Seq<ValueView>>,
    args: Seq<ExprView>,
    env: ChainView,
    i: int,
) -> (j: int)
    requires
        0 <= i,
        first_line(table, args, env, i) is Ok,
    ensures
        i <= j < table.len(),
        line_witness(table[j], args, env) == first_line(table, args, env, i),
    decreases table.len() - i,
{
    if line_witness(table[i], args, env) is Ok {
        i
    } else {
        lemma_first_line_index(table, args, env, i + 1)
    }
}

/// The goal that applies the predicate `name` to the variable `x`.
pub open spec fn goal_of(name: Name, x: Name) -> FactQueryView {
    FactQueryView { name: name, args: seq![ExprView::Variable(x)] }
}

/// After a goal `name(x)` for a predicate with facts and no rules was
/// proved, `x` is bound to the value of one of the predicate's lines.
pub proof fn lemma_goal_binds(
    db: DatabaseView,
    name: Name,
    x: Name,
    env: ChainView,
    bindings: BindingsView,
    depth: nat,
) -> (j: int)
    requires
        db.well_formed(),
        env.len() > 0,
        !db.rules.contains_key((name, 1nat)),
        bindings.contains_key(x),
        bindings[x] == ExprView::Variable(x),
        prove_spec(db, goal_of(name, x), env, bindings, depth) is Ok,
    ensures
        0 <= j < lines_of(db.facts, (name, 1nat)).len(),
        lines_of(db.facts, (name, 1nat))[j].len() == 1,
        lookup(env.update(0, prove_spec(db, goal_of(name, x), env, bindings, depth)->Ok_0), x)
            == Some(lines_of(db.facts, (name, 1nat))[j][0]),
{
    let goal = goal_of(name, x);
    let args = seq![ExprView::Variable(x)];
    assert(binding_spec(goal.args[0], bindings) == Ok::<ExprView, Fail>(ExprView::Variable(x)));
    assert(bound_args(goal.args, bindings) is Ok);
    assert(bound_args(goal.args, bindings)->Ok_0 =~= args);
    let key = (name, 1nat);
    let table = db.facts[key];
    let j = lemma_first_line_index(table, args, env, 0);
    let line = table[j];
    assert(line.len() == 1);
    let w = line_witness(line, args, env)->Ok_0;
    let inner = with_frame(FrameView::empty(), env);
    lemma_lookup_with_frame(FrameView::empty(), env, x);
    let first = unify_spec(args[0], line[0], inner);
    assert(unify_from(args, line, inner, 0) == unify_from(
        args,
        line,
        inner.update(0, first->Ok_0),
        1,
    ));
    assert(w == first->Ok_0);
    let next = prove_spec(db, goal, env, bindings, depth)->Ok_0;
    assert(merge_spec(w, env) == Ok::<FrameView, Fail>(next));
    crate::query::lemma_update_lookup(env, next, x);
    if lookup(env, x) is Some {
        assert(w =~= FrameView::empty());
        assert(next =~= env[0]);
        assert(env.update(0, next) =~= env);
    } else {
        assert(w.contains_key(x) && w[x] == line[0]);
    }
    j
}

/// A conjunction must agree on a variable that its goals share: where no
/// value is a fact of both `p` and `q`, the query for `p(x)` and `q(x)`
/// fails, although each goal alone may be proved with a value of its own.
pub proof fn law_conjunction_agrees(
    db: DatabaseView,
    p: Name,
    q: Name,
    x: Name,
    env: ChainView,
    depth: nat,
)
    requires
        db.well_formed(),
        env.len() > 0,
        !db.rules.contains_key((p, 1nat)),
        !db.rules.contains_key((q, 1nat)),
        forall|i: int, j: int|
            0 <= i < lines_of(db.facts, (p, 1nat)).len() && 0 <= j < lines_of(
                db.facts,
                (q, 1nat),
            ).len() ==> (#[trigger] lines_of(db.facts, (p, 1nat))[i])[0] != (#[trigger] lines_of(
                db.facts,
                (q, 1nat),
            )[j])[0],
    ensures
        query_spec(db, env, seq![x], seq![goal_of(p, x), goal_of(q, x)], depth) is Err,
{
    let goals = seq![goal_of(p, x), goal_of(q, x)];
    let bindings = self_bindings(seq![x]);
    assert(seq![x][0] == x);
    assert(seq![x].contains(x));
    let c0 = with_frame(FrameView::empty(), env);
    let first = prove_spec(db, goals[0], c0, bindings, depth);
    if first is Ok {
        let i = lemma_goal_binds(db, p, x, c0, bindings, depth);
        let c1 = c0.update(0, first->Ok_0);
        let second = prove_spec(db, goals[1], c1, bindings, depth);
        if second is Ok {
            let j = lemma_goal_binds(db, q, x, c1, bindings, depth);
            law_bindings_are_kept(db, goals[1], c1, bindings, depth, x);
            assert(false);
        }
        assert(prove_all(db, goals, c1, bindings, depth, 1) is Err);
    }
}

/// No predicate of the database has more than one clause.
pub open spec fn without_alternatives(db: DatabaseView) -> bool {
    forall|key: Key| #[trigger] db.rules.contains_key(key) ==> db.rules[key].len() <= 1
}

/// A clause of `db` that could not be proved, while a later clause of its
/// table could, cannot be proved in `after` either: what the search passed
/// over before it passes over again.
pub open spec fn keeps_skipped_clauses(db: DatabaseView, after: DatabaseView) -> bool {
    forall|key: Key, i: int, j: int, args: Seq<ExprView>, env: ChainView, depth: nat|
        db.rules.contains_key(key) && 0 <= i < j < db.rules[key].len() && clause_witness(
            db,
            db.rules[key][i],
            args,
            env,
            depth,
        ) is Err && (#[trigger] clause_witness(db, db.rules[key][j], args, env, depth)) is Ok
            ==> (#[trigger] clause_witness(after, db.rules[key][i], args, env, depth)) is Err
}

/// The database after `line` was asserted as a fact of `name`.
pub open spec fn with_fact(db: DatabaseView, name: Name, line: Seq<ValueView>) -> DatabaseView {
    DatabaseView { facts: facts_with(db.facts, name, line), rules: db.rules }
}

/// Where no predicate has more than one clause, the search never passes over
/// a clause on its way to a later one.
pub proof fn lemma_without_alternatives(db: DatabaseView, after: DatabaseView)
    requires
        without_alternatives(db),
    ensures
        keeps_skipped_clauses(db, after),
{
}

/// A line added at the end of a table does not change the witness that the
/// table had.
pub proof fn lemma_first_line_push(
    table: Seq<Seq<ValueView>>,
    line: Seq<ValueView>,
    args: Seq<ExprView>,
    env: ChainView,
    i: int,
)
    requires
        0 <= i,
        first_line(table, args, env, i) is Ok,
    ensures
        first_line(table.push(line), args, env, i) == first_line(table, args, env, i),
    decreases table.len() - i,
{
    if i < table.len() {
        assert(table.push(line)[i] == table[i]);
        if line_witness(table[i], args, env) is Err {
            lemma_first_line_push(table, line, args, env, i + 1);
        }
    }
}

/// The witness of a rule table is the witness of one of its clauses.
pub proof fn lemma_first_clause_index(
    db: DatabaseView,
    table: Seq<RuleBodyView>,
    args: Seq<ExprView>,
    env: ChainView,
    depth: nat,
    i: int,
) -> (j: int)
    requires
        0 <= i,
        first_clause(db, table, args, env, depth, i) is Ok,
    ensures
        i <= j < table.len(),
        clause_witness(db, table[j], args, env, depth) == first_clause(
            db,
            table,
            args,
            env,
            depth,
            i,
        ),
    decreases table.len() - i,
{
    if clause_witness(db, table[i], args, env, depth) is Ok {
        i
    } else {
        lemma_first_clause_index(db, table, args, env, depth, i + 1)
    }
}

/// A goal that was proved is proved in the same way after a fact was
/// asserted, unless the assertion made a clause provable that the search had
/// passed over.
pub proof fn law_goal_survives_assertion(
    db: DatabaseView,
    name: Name,
    line: Seq<ValueView>,
    goal: FactQueryView,
    env: ChainView,
    bindings: BindingsView,
    depth: nat,
)
    requires
        keeps_skipped_clauses(db, with_fact(db, name, line)),
        prove_spec(db, goal, env, bindings, depth) is Ok,
    ensures
        prove_spec(with_fact(db, name, line), goal, env, bindings, depth) == prove_spec(
            db,
            goal,
            env,
            bindings,
            depth,
        ),
    decreases depth, 0nat, 0nat,
{
    let args = bound_args(goal.args, bindings)->Ok_0;
    let key = (goal.name, args.len());
    if db.rules.contains_key(key) {
        lemma_table_survives(db, name, line, key, args, env, (depth - 1) as nat, 0);
    } else {
        let added = (name, line.len());
        if key == added {
            lemma_first_line_push(db.facts[key], line, args, env, 0);
        }
    }
}

/// The same for the rule table under `key`, from clause `i` on.
pub proof fn lemma_table_survives(
    db: DatabaseView,
    name: Name,
    line: Seq<ValueView>,
    key: Key,
    args: Seq<ExprView>,
    env: ChainView,
    depth: nat,
    i: int,
)
    requires
        keeps_skipped_clauses(db, with_fact(db, name, line)),
        db.rules.contains_key(key),
        0 <= i,
        first_clause(db, db.rules[key], args, env, depth, i) is Ok,
    ensures
        first_clause(with_fact(db, name, line), db.rules[key], args, env, depth, i)
            == first_clause(db, db.rules[key], args, env, depth, i),
    decreases depth, 3nat, db.rules[key].len() - i,
{
    let after = with_fact(db, name, line);
    let table = db.rules[key];
    if clause_witness(db, table[i], args, env, depth) is Ok {
        lemma_clause_survives(db, name, line, table[i], args, env, depth);
    } else {
        let j = lemma_first_clause_index(db, table, args, env, depth, i + 1);
        assert(clause_witness(db, db.rules[key][j], args, env, depth) is Ok);
        assert(clause_witness(after, db.rules[key][i], args, env, depth) is Err);
        lemma_table_survives(db, name, line, key, args, env, depth, i + 1);
    }
}

/// The same for one clause.
pub proof fn lemma_clause_survives(
    db: DatabaseView,
    name: Name,
    line: Seq<ValueView>,
    clause: RuleBodyView,
    args: Seq<ExprView>,
    env: ChainView,
    depth: nat,
)
    requires
        keeps_skipped_clauses(db, with_fact(db, name, line)),
        clause_witness(db, clause, args, env, depth) is Ok,
    ensures
        clause_witness(with_fact(db, name, line), clause, args, env, depth) == clause_witness(
            db,
            clause,
            args,
            env,
            depth,
        ),
    decreases depth, 2nat, 0nat,
{
    let capture = crate::semantics::match_from(clause.params, args, BindingsView::empty(), 0)->Ok_0;
    lemma_goals_survive(
        db,
        name,
        line,
        clause.body,
        with_frame(FrameView::empty(), env),
        capture,
        depth,
        0,
    );
}

/// The same for goals proved in order.
pub proof fn lemma_goals_survive(
    db: DatabaseView,
    name: Name,
    line: Seq<ValueView>,
    goals: Seq<FactQueryView>,
    env: ChainView,
    bindings: BindingsView,
    depth: nat,
    i: int,
)
    requires
        keeps_skipped_clauses(db, with_fact(db, name, line)),
        prove_all(db, goals, env, bindings, depth, i) is Ok,
    ensures
        prove_all(with_fact(db, name, line), goals, env, bindings, depth, i) == prove_all(
            db,
            goals,
            env,
            bindings,
            depth,
            i,
        ),
    decreases depth, 1nat, goals.len() - i,
{
    if 0 <= i < goals.len() {
        law_goal_survives_assertion(db, name, line, goals[i], env, bindings, depth);
        let next = prove_spec(db, goals[i], env, bindings, depth)->Ok_0;
        lemma_goals_survive(db, name, line, goals, env.update(0, next), bindings, depth, i + 1);
    }
}

/// Assertion only adds: a query that succeeded succeeds with the same
/// bindings after any fact was asserted, unless the assertion made a clause
/// provable that the search had passed over on its way to a later clause.
pub proof fn law_assertion_is_monotonic(
    db: DatabaseView,
    name: Name,
    line: Seq<ValueView>,
    env: ChainView,
    params: Seq<Name>,
    goals: Seq<FactQueryView>,
    depth: nat,
)
    requires
        keeps_skipped_clauses(db, with_fact(db, name, line)),
        query_spec(db, env, params, goals, depth) is Ok,
    ensures
        query_spec(with_fact(db, name, line), env, params, goals, depth) == query_spec(
            db,
            env,
            params,
            goals,
            depth,
        ),
{
    lemma_goals_survive(
        db,
        name,
        line,
        goals,
        with_frame(FrameView::empty(), env),
        self_bindings(params),
        depth,
        0,
    );
}

/// In particular, where no predicate has more than one clause, every query
/// that succeeded succeeds with the same bindings after any fact was
/// asserted.
pub proof fn law_assertion_is_monotonic_without_alternatives(
    db: DatabaseView,
    name: Name,
    line: Seq<ValueView>,
    env: ChainView,
    params: Seq<Name>,
    goals: Seq<FactQueryView>,
    depth: nat,
)
    requires
        without_alternatives(db),
        query_spec(db, env, params, goals, depth) is Ok,
    ensures
        query_spec(with_fact(db, name, line), env, params, goals, depth) == query_spec(
            db,
            env,
            params,
            goals,
            depth,
        ),
{
    lemma_without_alternatives(db, with_fact(db, name, line));
    law_assertion_is_monotonic(db, name, line, env, params, goals, depth);
}

} // verus!
