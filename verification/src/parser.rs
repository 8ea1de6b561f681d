//! The reading of values, expressions, patterns and goals from syntax trees.
//!
//! A symbol is written `'name` (the list `(quote name)`); a bare symbol is a
//! variable. A call and a goal are written `(name arg ...)`. A pattern is
//! `_`, a variable, a constant, `(tuple pattern ...)` or
//! `(list pattern ... . rest)`.
use vstd::prelude::*;
use crate::gast::{gasts_view, lemma_gasts_view, simple_value_from_gast, GAst, GAstView};
use crate::rule::{
    exprs_view, goals_view, lemma_exprs_view_push, lemma_patterns_view_push, patterns_view, Call,
    Expr, ExprView, FactQuery, FactQueryView, Pattern, PatternView,
};
use crate::value::{names_of, Name, Symbol, Value, ValueView};

verus! {

/// The name of the symbol, where the tree is a symbol.
pub open spec fn symbol_of(g: GAstView) -> Option<Name> {
    match g {
        GAstView::Const(ValueView::Sym(s)) => Some(s),
        _ => None,
    }
}

/// The items of the tree, where it is a list without a dotted tail that has
/// at least `least` items and whose first item is the symbol `word`.
pub open spec fn headed(g: GAstView, word: Seq<char>, least: nat) -> Option<Seq<GAstView>> {
    match g {
        GAstView::List(items, None) => if items.len() >= least && items.len() >= 1 && symbol_of(
            items[0],
        ) == Some(word) {
            Some(items)
        } else {
            None
        },
        _ => None,
    }
}

/// Whether the tree is a quotation: a list that begins `(quote item`.
pub open spec fn is_quote(g: GAstView) -> bool {
    headed(g, "quote"@, 2) is Some
}

/// The symbol that a quotation quotes, where it quotes a symbol.
pub open spec fn quoted(g: GAstView) -> Option<Name> {
    symbol_of(headed(g, "quote"@, 2)->0[1])
}

/// The value that a tree stands for: a constant is its value and a quoted
/// symbol is that symbol; no other list is a value.
pub open spec fn value_of(g: GAstView) -> Option<ValueView> {
    match g {
        GAstView::Const(c) => Some(c),
        GAstView::List(_, _) => if is_quote(g) {
            match quoted(g) {
                Some(s) => Some(ValueView::Sym(s)),
                None => None,
            }
        } else {
            None
        },
    }
}

/// The expressions that the items from `start` up to `end` stand for, where
/// each of them stands for one.
pub open spec fn exprs_in(items: Seq<GAstView>, start: int, end: int) -> Option<Seq<ExprView>>
    decreases items, end,
{
    if start < 0 || end <= start || end > items.len() {
        Some(Seq::empty())
    } else {
        match exprs_in(items, start, end - 1) {
            None => None,
            Some(prefix) => match expr_of(items[end - 1]) {
                None => None,
                Some(e) => Some(prefix.push(e)),
            },
        }
    }
}

/// The call that a tree stands for: a list without a dotted tail whose first
/// item is a symbol, the name, and whose other items are expressions.
pub open spec fn call_of(g: GAstView) -> Option<(Name, Seq<ExprView>)>
    decreases g, 0nat,
{
    match g {
        GAstView::List(items, None) => if items.len() >= 1 {
            match symbol_of(items[0]) {
                Some(name) => match exprs_in(items, 1, items.len() as int) {
                    Some(args) => Some((name, args)),
                    None => None,
                },
                None => None,
            }
        } else {
            None
        },
        _ => None,
    }
}

/// The expression that a tree stands for: a symbol is a variable, any other
/// constant a literal, a quoted symbol a literal symbol, and any other list
/// a call.
pub open spec fn expr_of(g: GAstView) -> Option<ExprView>
    decreases g, 1nat,
{
    match g {
        GAstView::Const(c) => match symbol_of(g) {
            Some(s) => Some(ExprView::Variable(s)),
            None => Some(ExprView::Value(c)),
        },
        GAstView::List(_, _) => if is_quote(g) {
            match quoted(g) {
                Some(s) => Some(ExprView::Value(ValueView::Sym(s))),
                None => None,
            }
        } else {
            match call_of(g) {
                Some((name, args)) => Some(ExprView::FunctionCall(name, args)),
                None => None,
            }
        },
    }
}

/// The patterns that the items from `start` up to `end` stand for, where
/// each of them stands for one.
pub open spec fn patterns_in(items: Seq<GAstView>, start: int, end: int) -> Option<
    Seq<PatternView>,
>
    decreases items, end,
{
    if start < 0 || end <= start || end > items.len() {
        Some(Seq::empty())
    } else {
        match patterns_in(items, start, end - 1) {
            None => None,
            Some(prefix) => match pattern_of(items[end - 1]) {
                None => None,
                Some(p) => Some(prefix.push(p)),
            },
        }
    }
}

/// The pattern that a tree stands for: the symbol `_` ignores, another
/// symbol is a variable, any other constant and a quoted symbol are
/// constants, `(tuple pattern ...)` is a tuple, and `(list pattern ... . rest)`
/// a list with a pattern for its rest.
pub open spec fn pattern_of(g: GAstView) -> Option<PatternView>
    decreases g, 0nat,
{
    match g {
        GAstView::Const(c) => match symbol_of(g) {
            Some(s) => if s == "_"@ {
                Some(PatternView::Ignore)
            } else {
                Some(PatternView::Variable(s))
            },
            None => Some(PatternView::Constant(c)),
        },
        GAstView::List(items, tail) => if is_quote(g) {
            match quoted(g) {
                Some(s) => Some(PatternView::Constant(ValueView::Sym(s))),
                None => None,
            }
        } else if headed(g, "tuple"@, 1) is Some {
            match patterns_in(items, 1, items.len() as int) {
                Some(ps) => Some(PatternView::Tuple(ps)),
                None => None,
            }
        } else {
            match tail {
                Some(rest) => if items.len() >= 1 && symbol_of(items[0]) == Some("list"@) {
                    match patterns_in(items, 1, items.len() as int) {
                        Some(ps) => match pattern_of(*rest) {
                            Some(r) => Some(PatternView::List(ps, Some(Box::new(r)))),
                            None => None,
                        },
                        None => None,
                    }
                } else {
                    None
                },
                None => None,
            }
        },
    }
}

/// The goal that a tree stands for: it is written as a call.
pub open spec fn goal_of(g: GAstView) -> Option<FactQueryView> {
    match call_of(g) {
        Some((name, args)) => Some(FactQueryView { name: name, args: args }),
        None => None,
    }
}

/// The goals that the items from `start` up to `end` stand for, where each
/// of them stands for one.
pub open spec fn goals_in(items: Seq<GAstView>, start: int, end: int) -> Option<
    Seq<FactQueryView>,
>
    decreases end - start,
{
    if start < 0 || end <= start || end > items.len() {
        Some(Seq::empty())
    } else {
        match goals_in(items, start, end - 1) {
            None => None,
            Some(prefix) => match goal_of(items[end - 1]) {
                None => None,
                Some(q) => Some(prefix.push(q)),
            },
        }
    }
}

/// The names of the items from `start` up to `end`, where each of them is a
/// symbol.
pub open spec fn symbols_in(items: Seq<GAstView>, start: int, end: int) -> Option<Seq<Name>>
    decreases end - start,
{
    if start < 0 || end <= start || end > items.len() {
        Some(Seq::empty())
    } else {
        match symbols_in(items, start, end - 1) {
            None => None,
            Some(prefix) => match symbol_of(items[end - 1]) {
                None => None,
                Some(s) => Some(prefix.push(s)),
            },
        }
    }
}

/// Where the items up to `mid` do not all stand for expressions, those up to
/// a later end do not either.
pub proof fn lemma_exprs_in_none(items: Seq<GAstView>, start: int, mid: int, end: int)
    requires
        0 <= start <= mid <= end <= items.len(),
        exprs_in(items, start, mid) is None,
    ensures
        exprs_in(items, start, end) is None,
    decreases end - mid,
{
    if mid < end {
        lemma_exprs_in_none(items, start, mid, end - 1);
    }
}

/// The same for patterns.
pub proof fn lemma_patterns_in_none(items: Seq<GAstView>, start: int, mid: int, end: int)
    requires
        0 <= start <= mid <= end <= items.len(),
        patterns_in(items, start, mid) is None,
    ensures
        patterns_in(items, start, end) is None,
    decreases end - mid,
{
    if mid < end {
        lemma_patterns_in_none(items, start, mid, end - 1);
    }
}

/// The same for goals.
pub proof fn lemma_goals_in_none(items: Seq<GAstView>, start: int, mid: int, end: int)
    requires
        0 <= start <= mid <= end <= items.len(),
        goals_in(items, start, mid) is None,
    ensures
        goals_in(items, start, end) is None,
    decreases end - mid,
{
    if mid < end {
        lemma_goals_in_none(items, start, mid, end - 1);
    }
}

/// The same for symbols.
pub proof fn lemma_symbols_in_none(items: Seq<GAstView>, start: int, mid: int, end: int)
    requires
        0 <= start <= mid <= end <= items.len(),
        symbols_in(items, start, mid) is None,
    ensures
        symbols_in(items, start, end) is None,
    decreases end - mid,
{
    if mid < end {
        lemma_symbols_in_none(items, start, mid, end - 1);
    }
}

/// The symbol, where the tree is one.
pub fn symbol_from_sexpr(i: &GAst) -> (r: Option<&Symbol>)
    ensures
        match symbol_of(i@) {
            Some(s) => r matches Some(x) && x@ == s,
            None => r is None,
        },
{
    match i.get_const() {
        Some(c) => c.get_sym(),
        None => None,
    }
}

/// The items of the tree, where it is a list without a dotted tail.
pub fn proper_items(g: &GAst) -> (r: Option<&Vec<GAst>>)
    ensures
        match g@ {
            GAstView::List(items, None) => r matches Some(v) && gasts_view(v@) == items && v.len()
                == items.len(),
            _ => r is None,
        },
{
    match g {
        GAst::Const(_) => None,
        GAst::List(l) => {
            proof {
                lemma_gasts_view(l.0@);
            }
            if l.1.is_none() {
                Some(&l.0)
            } else {
                None
            }
        },
    }
}

/// Whether there is an item at position `i` and it is the symbol `word`.
pub fn has_head_at(items: &Vec<GAst>, i: usize, word: &str) -> (r: bool)
    ensures
        r == (i < items.len() && symbol_of(items[i as int]@) == Some(word@)),
{
    if i < items.len() {
        match symbol_from_sexpr(&items[i]) {
            Some(s) => *s == Symbol::new(word),
            None => false,
        }
    } else {
        false
    }
}

/// Whether there is a first item and it is the symbol `word`.
pub fn has_head(items: &Vec<GAst>, word: &str) -> (r: bool)
    ensures
        r == (items.len() >= 1 && symbol_of(items[0]@) == Some(word@)),
{
    has_head_at(items, 0, word)
}

/// The items of the tree, where it is a list without a dotted tail that has
/// at least `least` items and begins with the symbol `word`.
pub fn headed_items<'a>(g: &'a GAst, word: &str, least: usize) -> (r: Option<&'a Vec<GAst>>)
    ensures
        match headed(g@, word@, least as nat) {
            Some(items) => r matches Some(v) && gasts_view(v@) == items && v.len() == items.len()
                && v.len() >= 1 && v.len() >= least,
            None => r is None,
        },
{
    match g {
        GAst::Const(_) => None,
        GAst::List(l) => {
            proof {
                lemma_gasts_view(l.0@);
            }
            if l.1.is_none() && l.0.len() >= least && l.0.len() >= 1 && has_head(&l.0, word) {
                Some(&l.0)
            } else {
                None
            }
        },
    }
}

/// Reads a value.
pub fn value_from_gast(input: &GAst) -> (r: Option<Value>)
    ensures
        match value_of(input@) {
            Some(v) => r matches Some(x) && x@ == v,
            None => r is None,
        },
{
    match input {
        GAst::Const(c) => Some(simple_value_from_gast(c)),
        GAst::List(_) => {
            match headed_items(input, "quote", 2) {
                Some(items) => {
                    proof {
                        lemma_gasts_view(items@);
                    }
                    match symbol_from_sexpr(&items[1]) {
                        Some(s) => Some(Value::Sym(s.clone())),
                        None => None,
                    }
                },
                None => None,
            }
        },
    }
}

/// Reads the items from `start` on as expressions.
pub fn exprs_from_gast(items: &Vec<GAst>, start: usize) -> (r: Option<Vec<Expr>>)
    ensures
        match exprs_in(gasts_view(items@), start as int, items.len() as int) {
            Some(s) => r matches Some(v) && exprs_view(v@) == s,
            None => r is None,
        },
    decreases items, 0nat,
{
    let ghost iv = gasts_view(items@);
    proof {
        lemma_gasts_view(items@);
    }
    let mut out: Vec<Expr> = Vec::new();
    let mut i: usize = start;
    while i < items.len()
        invariant
            start <= i,
            i <= items.len() || i == start,
            iv == gasts_view(items@),
            iv.len() == items.len(),
            forall|j: int| 0 <= j < items.len() ==> #[trigger] iv[j] == items[j]@,
            exprs_in(iv, start as int, i as int) == Some(exprs_view(out@)),
        decreases items.len() - i,
    {
        match expr_from_gast(&items[i]) {
            Some(e) => {
                proof {
                    lemma_exprs_view_push(out@, e);
                }
                out.push(e);
            },
            None => {
                proof {
                    assert(exprs_in(iv, start as int, i + 1) is None);
                    lemma_exprs_in_none(iv, start as int, i + 1, items.len() as int);
                }
                return None;
            },
        }
        i = i + 1;
    }
    Some(out)
}

/// Reads a call: `(name arg ...)`.
pub fn call_from_gast(input: &GAst) -> (r: Option<Call>)
    ensures
        match call_of(input@) {
            Some(c) => r matches Some(x) && x@ == c,
            None => r is None,
        },
    decreases input, 0nat,
{
    match input {
        GAst::Const(_) => None,
        GAst::List(l) => {
            proof {
                lemma_gasts_view(l.0@);
            }
            if l.1.is_none() && l.0.len() >= 1 {
                match symbol_from_sexpr(&l.0[0]) {
                    Some(name) => {
                        match exprs_from_gast(&l.0, 1) {
                            Some(args) => Some(Call { call_name: name.clone(), args: args }),
                            None => None,
                        }
                    },
                    None => None,
                }
            } else {
                None
            }
        },
    }
}

/// Reads an expression.
pub fn expr_from_gast(input: &GAst) -> (r: Option<Expr>)
    ensures
        match expr_of(input@) {
            Some(e) => r matches Some(x) && x@ == e,
            None => r is None,
        },
    decreases input, 1nat,
{
    match input {
        GAst::Const(c) => {
            match c.get_sym() {
                Some(s) => Some(Expr::Variable(s.clone())),
                None => Some(Expr::Value(simple_value_from_gast(c))),
            }
        },
        GAst::List(l) => {
            proof {
                lemma_gasts_view(l.0@);
            }
            if l.1.is_none() && l.0.len() >= 2 && has_head(&l.0, "quote") {
                match symbol_from_sexpr(&l.0[1]) {
                    Some(s) => Some(Expr::Value(Value::Sym(s.clone()))),
                    None => None,
                }
            } else {
                match call_from_gast(input) {
                    Some(c) => Some(Expr::FunctionCall(Box::new(c))),
                    None => None,
                }
            }
        },
    }
}

/// Reads the items from `start` on as patterns.
pub fn patterns_from_gast(items: &Vec<GAst>, start: usize) -> (r: Option<Vec<Pattern>>)
    ensures
        match patterns_in(gasts_view(items@), start as int, items.len() as int) {
            Some(s) => r matches Some(v) && patterns_view(v@) == s,
            None => r is None,
        },
    decreases items, 0nat,
{
    let ghost iv = gasts_view(items@);
    proof {
        lemma_gasts_view(items@);
    }
    let mut out: Vec<Pattern> = Vec::new();
    let mut i: usize = start;
    while i < items.len()
        invariant
            start <= i,
            i <= items.len() || i == start,
            iv == gasts_view(items@),
            iv.len() == items.len(),
            forall|j: int| 0 <= j < items.len() ==> #[trigger] iv[j] == items[j]@,
            patterns_in(iv, start as int, i as int) == Some(patterns_view(out@)),
        decreases items.len() - i,
    {
        match pattern_from_gast(&items[i]) {
            Some(p) => {
                proof {
                    lemma_patterns_view_push(out@, p);
                }
                out.push(p);
            },
            None => {
                proof {
                    assert(patterns_in(iv, start as int, i + 1) is None);
                    lemma_patterns_in_none(iv, start as int, i + 1, items.len() as int);
                }
                return None;
            },
        }
        i = i + 1;
    }
    Some(out)
}

/// Reads a pattern.
pub fn pattern_from_gast(input: &GAst) -> (r: Option<Pattern>)
    ensures
        match pattern_of(input@) {
            Some(p) => r matches Some(x) && x@ == p,
            None => r is None,
        },
    decreases input, 0nat,
{
    match input {
        GAst::Const(c) => {
            match c.get_sym() {
                Some(s) => {
                    if *s == Symbol::new("_") {
                        Some(Pattern::Ignore)
                    } else {
                        Some(Pattern::Variable(s.clone()))
                    }
                },
                None => Some(Pattern::Constant(simple_value_from_gast(c))),
            }
        },
        GAst::List(l) => {
            proof {
                lemma_gasts_view(l.0@);
            }
            if l.1.is_none() && l.0.len() >= 2 && has_head(&l.0, "quote") {
                match symbol_from_sexpr(&l.0[1]) {
                    Some(s) => Some(Pattern::Constant(Value::Sym(s.clone()))),
                    None => None,
                }
            } else if l.1.is_none() && l.0.len() >= 1 && has_head(&l.0, "tuple") {
                match patterns_from_gast(&l.0, 1) {
                    Some(ps) => Some(Pattern::Tuple(ps)),
                    None => None,
                }
            } else {
                match &l.1 {
                    Some(rest) => {
                        if l.0.len() >= 1 && has_head(&l.0, "list") {
                            match patterns_from_gast(&l.0, 1) {
                                Some(ps) => {
                                    match pattern_from_gast(rest) {
                                        Some(r) => Some(Pattern::List(ps, Some(Box::new(r)))),
                                        None => None,
                                    }
                                },
                                None => None,
                            }
                        } else {
                            None
                        }
                    },
                    None => None,
                }
            }
        },
    }
}

/// Reads a goal: `(name arg ...)`.
pub fn goal_from_gast(input: &GAst) -> (r: Option<FactQuery>)
    ensures
        match goal_of(input@) {
            Some(q) => r matches Some(x) && x@ == q,
            None => r is None,
        },
{
    match call_from_gast(input) {
        Some(c) => Some(FactQuery { name: c.call_name, args: c.args }),
        None => None,
    }
}

/// Reads the items from `start` on as goals.
pub fn goals_from_gast(items: &Vec<GAst>, start: usize) -> (r: Option<Vec<FactQuery>>)
    ensures
        match goals_in(gasts_view(items@), start as int, items.len() as int) {
            Some(s) => r matches Some(v) && goals_view(v@) == s,
            None => r is None,
        },
{
    let ghost iv = gasts_view(items@);
    proof {
        lemma_gasts_view(items@);
    }
    let mut out: Vec<FactQuery> = Vec::new();
    let mut i: usize = start;
    proof {
        assert(goals_view(out@) =~= Seq::<FactQueryView>::empty());
    }
    while i < items.len()
        invariant
            start <= i,
            i <= items.len() || i == start,
            iv == gasts_view(items@),
            iv.len() == items.len(),
            forall|j: int| 0 <= j < items.len() ==> #[trigger] iv[j] == items[j]@,
            goals_in(iv, start as int, i as int) == Some(goals_view(out@)),
        decreases items.len() - i,
    {
        match goal_from_gast(&items[i]) {
            Some(q) => {
                let ghost before = goals_view(out@);
                let ghost qv = q@;
                out.push(q);
                proof {
                    assert(goals_view(out@) =~= before.push(qv));
                }
            },
            None => {
                proof {
                    assert(goals_in(iv, start as int, i + 1) is None);
                    lemma_goals_in_none(iv, start as int, i + 1, items.len() as int);
                }
                return None;
            },
        }
        i = i + 1;
    }
    Some(out)
}

/// Reads the items from `start` on as symbols.
pub fn symbols_from_gast(items: &Vec<GAst>, start: usize) -> (r: Option<Vec<Symbol>>)
    ensures
        match symbols_in(gasts_view(items@), start as int, items.len() as int) {
            Some(s) => r matches Some(v) && names_of(v@) == s,
            None => r is None,
        },
{
    let ghost iv = gasts_view(items@);
    proof {
        lemma_gasts_view(items@);
    }
    let mut out: Vec<Symbol> = Vec::new();
    let mut i: usize = start;
    proof {
        assert(names_of(out@) =~= Seq::<Name>::empty());
    }
    while i < items.len()
        invariant
            start <= i,
            i <= items.len() || i == start,
            iv == gasts_view(items@),
            iv.len() == items.len(),
            forall|j: int| 0 <= j < items.len() ==> #[trigger] iv[j] == items[j]@,
            symbols_in(iv, start as int, i as int) == Some(names_of(out@)),
        decreases items.len() - i,
    {
        match symbol_from_sexpr(&items[i]) {
            Some(s) => {
                let ghost before = names_of(out@);
                out.push(s.clone());
                proof {
                    assert(names_of(out@) =~= before.push(s@));
                }
            },
            None => {
                proof {
                    assert(symbols_in(iv, start as int, i + 1) is None);
                    lemma_symbols_in_none(iv, start as int, i + 1, items.len() as int);
                }
                return None;
            },
        }
        i = i + 1;
    }
    Some(out)
}

/// What can be read from a syntax tree.
pub trait FromGast {
    /// What is read.
    type Target: View;

    /// What the tree stands for, where it stands for anything.
    spec fn reading(input: GAstView) -> Option<<Self::Target as View>::V>;

    /// Reads the tree; the result is `None` where the tree stands for
    /// nothing of this kind.
    fn from_gast(input: &GAst) -> (r: Option<Self::Target>)
        ensures
            match Self::reading(input@) {
                Some(v) => r matches Some(x) && x@ == v,
                None => r is None,
            },
    ;
}

impl FromGast for Value {
    type Target = Value;

    open spec fn reading(input: GAstView) -> Option<ValueView> {
        value_of(input)
    }

    fn from_gast(input: &GAst) -> (r: Option<Value>) {
        value_from_gast(input)
    }
}

impl FromGast for Call {
    type Target = Call;

    open spec fn reading(input: GAstView) -> Option<(Name, Seq<ExprView>)> {
        call_of(input)
    }

    fn from_gast(input: &GAst) -> (r: Option<Call>) {
        call_from_gast(input)
    }
}

impl FromGast for Expr {
    type Target = Expr;

    open spec fn reading(input: GAstView) -> Option<ExprView> {
        expr_of(input)
    }

    fn from_gast(input: &GAst) -> (r: Option<Expr>) {
        expr_from_gast(input)
    }
}

impl FromGast for Pattern {
    type Target = Pattern;

    open spec fn reading(input: GAstView) -> Option<PatternView> {
        pattern_of(input)
    }

    fn from_gast(input: &GAst) -> (r: Option<Pattern>) {
        pattern_from_gast(input)
    }
}

impl FromGast for FactQuery {
    type Target = FactQuery;

    open spec fn reading(input: GAstView) -> Option<FactQueryView> {
        goal_of(input)
    }

    fn from_gast(input: &GAst) -> (r: Option<FactQuery>) {
        goal_from_gast(input)
    }
}

} // verus!
