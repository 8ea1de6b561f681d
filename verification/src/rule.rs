//! Expressions, patterns, goals and rule clauses.
use vstd::prelude::*;
use vstd::std_specs::cmp::PartialEqSpecImpl;
use crate::record::{Key, Record};
use crate::value::{Name, Symbol, Value, ValueView};

verus! {

/// The mathematical content of an [`Expr`].
pub enum ExprView {
    Value(ValueView),
    Variable(Name),
    FunctionCall(Name, Seq<ExprView>),
}

/// An expression: a literal, a reference to a variable, or a call that is
/// kept unevaluated.
#[derive(Debug)]
pub enum Expr {
    Value(Value),
    Variable(Symbol),
    FunctionCall(Box<Call>),
}

/// A function call: the name of the function and its arguments.
#[derive(Debug)]
pub struct Call {
    pub call_name: Symbol,
    pub args: Vec<Expr>,
}

/// The views of the expressions of a sequence, in order.
pub open spec fn exprs_view(s: Seq<Expr>) -> Seq<ExprView>
    decreases s,
{
    if s.len() == 0 {
        Seq::empty()
    } else {
        exprs_view(s.drop_last()).push(s.last().view())
    }
}

impl View for Expr {
    type V = ExprView;

    open spec fn view(&self) -> ExprView
        decreases self,
    {
        match self {
            Expr::Value(v) => ExprView::Value(v@),
            Expr::Variable(k) => ExprView::Variable(k@),
            Expr::FunctionCall(c) => ExprView::FunctionCall(c.call_name@, exprs_view(c.args@)),
        }
    }
}

impl View for Call {
    type V = (Name, Seq<ExprView>);

    open spec fn view(&self) -> (Name, Seq<ExprView>) {
        (self.call_name@, exprs_view(self.args@))
    }
}

/// `exprs_view` maps the view over the sequence, element by element.
pub proof fn lemma_exprs_view(s: Seq<Expr>)
    ensures
        exprs_view(s).len() == s.len(),
        forall|i: int| 0 <= i < s.len() ==> #[trigger] exprs_view(s)[i] == s[i]@,
    decreases s.len(),
{
    if s.len() > 0 {
        lemma_exprs_view(s.drop_last());
        assert(exprs_view(s) == exprs_view(s.drop_last()).push(s.last().view()));
        assert forall|i: int| 0 <= i < s.len() implies #[trigger] exprs_view(s)[i] == s[i]@ by {
            if i < s.len() - 1 {
                assert(s.drop_last()[i] == s[i]);
            }
        }
    }
}

/// Appending one expression appends its view.
pub proof fn lemma_exprs_view_push(s: Seq<Expr>, e: Expr)
    ensures
        exprs_view(s.push(e)) == exprs_view(s).push(e@),
{
    assert(s.push(e).drop_last() =~= s);
}

/// A copy of every expression of `v`, in order.
pub fn clone_exprs(v: &Vec<Expr>) -> (out: Vec<Expr>)
    ensures
        exprs_view(out@) == exprs_view(v@),
    decreases v,
{
    let mut out: Vec<Expr> = Vec::new();
    let mut i: usize = 0;
    while i < v.len()
        invariant
            i <= v.len(),
            out.len() == i,
            forall|j: int| 0 <= j < i ==> out[j]@ == v[j]@,
        decreases v.len() - i,
    {
        out.push(v[i].clone());
        i = i + 1;
    }
    proof {
        lemma_exprs_view(out@);
        lemma_exprs_view(v@);
        assert(exprs_view(out@) =~= exprs_view(v@));
    }
    out
}

/// Whether two sequences of expressions are equal, element by element.
pub fn exprs_equal(a: &Vec<Expr>, b: &Vec<Expr>) -> (r: bool)
    ensures
        r == (exprs_view(a@) == exprs_view(b@)),
    decreases a,
{
    proof {
        lemma_exprs_view(a@);
        lemma_exprs_view(b@);
    }
    if a.len() != b.len() {
        return false;
    }
    let mut i: usize = 0;
    while i < a.len()
        invariant
            i <= a.len(),
            a.len() == b.len(),
            exprs_view(a@).len() == a.len(),
            exprs_view(b@).len() == b.len(),
            forall|j: int| 0 <= j < a.len() ==> #[trigger] exprs_view(a@)[j] == a[j]@,
            forall|j: int| 0 <= j < b.len() ==> #[trigger] exprs_view(b@)[j] == b[j]@,
            forall|j: int| 0 <= j < i ==> a[j]@ == b[j]@,
        decreases a.len() - i,
    {
        if !a[i].eq(&b[i]) {
            proof {
                assert(exprs_view(a@)[i as int] != exprs_view(b@)[i as int]);
            }
            return false;
        }
        i = i + 1;
    }
    proof {
        assert(exprs_view(a@) =~= exprs_view(b@));
    }
    true
}

impl Clone for Expr {
    fn clone(&self) -> (r: Expr)
        ensures
            r@ == self@,
        decreases self,
    {
        match self {
            Expr::Value(v) => Expr::Value(v.clone()),
            Expr::Variable(k) => Expr::Variable(k.clone()),
            Expr::FunctionCall(c) => Expr::FunctionCall(
                Box::new(Call { call_name: c.call_name.clone(), args: clone_exprs(&c.args) }),
            ),
        }
    }
}

impl PartialEq for Expr {
    fn eq(&self, other: &Expr) -> (r: bool)
        decreases self,
    {
        match (self, other) {
            (Expr::Value(a), Expr::Value(b)) => *a == *b,
            (Expr::Variable(a), Expr::Variable(b)) => *a == *b,
            (Expr::FunctionCall(a), Expr::FunctionCall(b)) => a.call_name == b.call_name
                && exprs_equal(&a.args, &b.args),
            _ => false,
        }
    }
}

impl PartialEqSpecImpl for Expr {
    open spec fn obeys_eq_spec() -> bool {
        true
    }

    open spec fn eq_spec(&self, other: &Expr) -> bool {
        self@ == other@
    }
}

impl Clone for Call {
    fn clone(&self) -> (r: Call)
        ensures
            r@ == self@,
    {
        Call { call_name: self.call_name.clone(), args: clone_exprs(&self.args) }
    }
}

impl PartialEq for Call {
    fn eq(&self, other: &Call) -> (r: bool) {
        self.call_name == other.call_name && exprs_equal(&self.args, &other.args)
    }
}

impl PartialEqSpecImpl for Call {
    open spec fn obeys_eq_spec() -> bool {
        true
    }

    open spec fn eq_spec(&self, other: &Call) -> bool {
        self@ == other@
    }
}

/// The mathematical content of a [`Pattern`].
pub enum PatternView {
    Ignore,
    Variable(Name),
    Constant(ValueView),
    Tuple(Seq<PatternView>),
    List(Seq<PatternView>, Option<Box<PatternView>>),
}

/// A template for one formal parameter of a rule clause.
#[derive(Debug)]
pub enum Pattern {
    /// Matches anything and binds nothing.
    Ignore,
    /// Binds the argument, or demands that it equal an earlier binding of the
    /// same symbol.
    Variable(Symbol),
    /// Matches a literal equal to the constant.
    Constant(Value),
    /// A tuple of patterns.
    Tuple(Vec<Pattern>),
    /// Head patterns and an optional pattern for the rest of the list.
    List(Vec<Pattern>, Option<Box<Pattern>>),
}

/// The views of the patterns of a sequence, in order.
pub open spec fn patterns_view(s: Seq<Pattern>) -> Seq<PatternView>
    decreases s,
{
    if s.len() == 0 {
        Seq::empty()
    } else {
        patterns_view(s.drop_last()).push(s.last().view())
    }
}

impl View for Pattern {
    type V = PatternView;

    open spec fn view(&self) -> PatternView
        decreases self,
    {
        match self {
            Pattern::Ignore => PatternView::Ignore,
            Pattern::Variable(k) => PatternView::Variable(k@),
            Pattern::Constant(c) => PatternView::Constant(c@),
            Pattern::Tuple(items) => PatternView::Tuple(patterns_view(items@)),
            Pattern::List(items, rest) => PatternView::List(
                patterns_view(items@),
                match rest {
                    Some(p) => Some(Box::new((**p).view())),
                    None => None,
                },
            ),
        }
    }
}

/// `patterns_view` maps the view over the sequence, element by element.
pub proof fn lemma_patterns_view(s: Seq<Pattern>)
    ensures
        patterns_view(s).len() == s.len(),
        forall|i: int| 0 <= i < s.len() ==> #[trigger] patterns_view(s)[i] == s[i]@,
    decreases s.len(),
{
    if s.len() > 0 {
        lemma_patterns_view(s.drop_last());
        assert(patterns_view(s) == patterns_view(s.drop_last()).push(s.last().view()));
        assert forall|i: int| 0 <= i < s.len() implies #[trigger] patterns_view(s)[i]
            == s[i]@ by {
            if i < s.len() - 1 {
                assert(s.drop_last()[i] == s[i]);
            }
        }
    }
}

/// Appending one pattern appends its view.
pub proof fn lemma_patterns_view_push(s: Seq<Pattern>, p: Pattern)
    ensures
        patterns_view(s.push(p)) == patterns_view(s).push(p@),
{
    assert(s.push(p).drop_last() =~= s);
}

/// The mathematical content of a [`FactQuery`].
pub struct FactQueryView {
    pub name: Name,
    pub args: Seq<ExprView>,
}

/// A goal: a predicate name applied to argument expressions.
#[derive(Debug)]
pub struct FactQuery {
    pub name: Symbol,
    pub args: Vec<Expr>,
}

impl View for FactQuery {
    type V = FactQueryView;

    open spec fn view(&self) -> FactQueryView {
        FactQueryView { name: self.name@, args: exprs_view(self.args@) }
    }
}

impl Clone for FactQuery {
    fn clone(&self) -> (r: FactQuery)
        ensures
            r@ == self@,
    {
        FactQuery { name: self.name.clone(), args: clone_exprs(&self.args) }
    }
}

/// The views of the goals of a sequence, in order.
pub open spec fn goals_view(s: Seq<FactQuery>) -> Seq<FactQueryView> {
    Seq::new(s.len(), |i: int| s[i]@)
}

/// The mathematical content of a [`RuleBody`].
pub struct RuleBodyView {
    pub params: Seq<PatternView>,
    pub body: Seq<FactQueryView>,
}

/// One clause of a rule: the patterns of its formal parameters and the goals
/// that must all be proved.
#[derive(Debug)]
pub struct RuleBody {
    pub params: Vec<Pattern>,
    pub body: Vec<FactQuery>,
}

impl View for RuleBody {
    type V = RuleBodyView;

    open spec fn view(&self) -> RuleBodyView {
        RuleBodyView { params: patterns_view(self.params@), body: goals_view(self.body@) }
    }
}

/// The clauses that define one predicate, in the order they were asserted.
#[derive(Debug)]
pub struct RuleTable(pub Vec<RuleBody>);

impl View for RuleTable {
    type V = Seq<RuleBodyView>;

    open spec fn view(&self) -> Seq<RuleBodyView> {
        Seq::new(self.0.len() as nat, |i: int| self.0[i]@)
    }
}

/// The mathematical content of a [`RuleRecord`].
pub type RulesView = Map<Key, Seq<RuleBodyView>>;

/// Every clause under a key has as many parameters as the key's arity.
pub open spec fn rules_well_formed(rules: RulesView) -> bool {
    forall|key: Key, i: int|
        rules.contains_key(key) && 0 <= i < rules[key].len() ==> (#[trigger] rules[key][i]).params.len()
            == key.1
}

/// The clauses under `key`: none where the key has no table.
pub open spec fn clauses_of(rules: RulesView, key: Key) -> Seq<RuleBodyView> {
    if rules.contains_key(key) {
        rules[key]
    } else {
        Seq::empty()
    }
}

/// The rule tables after `clause` was asserted under `name`: the clause
/// stands last in the table for that name and the number of its parameters.
pub open spec fn rules_with(rules: RulesView, name: Name, clause: RuleBodyView) -> RulesView {
    rules.insert(
        (name, clause.params.len()),
        clauses_of(rules, (name, clause.params.len())).push(clause),
    )
}

/// The rule tables of a database.
#[derive(Debug)]
pub struct RuleRecord(pub Record<RuleTable>);

impl View for RuleRecord {
    type V = RulesView;

    open spec fn view(&self) -> RulesView {
        Map::new(|k: Key| self.0.map().contains_key(k), |k: Key| self.0.map()[k]@)
    }
}

impl RuleRecord {
    /// No key occurs twice, and every clause has the number of parameters
    /// that its key names.
    pub open spec fn wf(&self) -> bool {
        &&& self.0.wf()
        &&& rules_well_formed(self@)
    }

    /// The record without rules.
    pub fn new() -> (r: RuleRecord)
        ensures
            r.wf(),
            r@ == RulesView::empty(),
    {
        let r = RuleRecord(Record::new());
        proof {
            assert(r@ =~= RulesView::empty());
        }
        r
    }

    /// The table of the clauses under `(name, arity)`, if there is one.
    pub fn get(&self, name: &Symbol, arity: usize) -> (r: Option<&RuleTable>)
        requires
            self.wf(),
        ensures
            match r {
                Some(t) => self@.contains_key((name@, arity as nat)) && self@[(
                    name@,
                    arity as nat,
                )] == t@,
                None => !self@.contains_key((name@, arity as nat)),
            },
    {
        self.0.get(name, arity)
    }

    /// Appends `clause` to the table under `name` and the number of the
    /// clause's parameters, and creates the table when there is none.
    pub fn assert_clause(&mut self, name: Symbol, clause: RuleBody)
        requires
            old(self).wf(),
        ensures
            final(self).wf(),
            final(self)@ == rules_with(old(self)@, name@, clause@),
    {
        proof {
            lemma_patterns_view(clause.params@);
        }
        let arity = clause.params.len();
        let ghost key = (name@, arity as nat);
        let ghost clause_view = clause@;
        match self.0.position(&name, arity) {
            Some(i) => {
                let mut table = self.0.take(i, RuleTable(Vec::new()));
                let ghost before = table@;
                table.0.push(clause);
                proof {
                    old(self).0.lemma_entry(i as int);
                    assert(table@ =~= before.push(clause_view));
                }
                self.0.replace(i, table);
            },
            None => {
                let mut clauses: Vec<RuleBody> = Vec::new();
                clauses.push(clause);
                let table = RuleTable(clauses);
                proof {
                    assert(table@ =~= Seq::<RuleBodyView>::empty().push(clause_view));
                }
                self.0.add(name, arity, table);
            },
        }
        proof {
            assert(self@ =~= rules_with(old(self)@, key.0, clause_view));
            assert forall|k: Key, i: int|
                self@.contains_key(k) && 0 <= i < self@[k].len() implies (#[trigger] self@[k][i]).params.len()
                == k.1 by {
                if k == key {
                    if old(self)@.contains_key(k) && i < old(self)@[k].len() {
                        assert(self@[k][i] == old(self)@[k][i]);
                    }
                } else {
                    assert(self@[k][i] == old(self)@[k][i]);
                }
            }
        }
    }
}

} // verus!
