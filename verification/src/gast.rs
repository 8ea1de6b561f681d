//! The generic syntax tree that the engine reads its forms from: constants,
//! and lists with an optional dotted tail.
use vstd::prelude::*;
use crate::value::{Symbol, Value, ValueView};

verus! {

/// A constant of the syntax. A floating-point literal is held by its decimal
/// text.
#[derive(Debug)]
pub enum Constant {
    Nil,
    Bool(bool),
    Char(char),
    Int(i64),
    Uint(u64),
    Float(String),
    Str(String),
    Sym(Symbol),
}

impl View for Constant {
    type V = ValueView;

    open spec fn view(&self) -> ValueView {
        match self {
            Constant::Nil => ValueView::Nil,
            Constant::Bool(b) => ValueView::Bool(*b),
            Constant::Char(c) => ValueView::Char(*c),
            Constant::Int(n) => ValueView::Int(*n),
            Constant::Uint(n) => ValueView::Uint(*n),
            Constant::Float(t) => ValueView::Float(t@),
            Constant::Str(s) => ValueView::Str(s@),
            Constant::Sym(s) => ValueView::Sym(s@),
        }
    }
}

/// The mathematical content of a [`GAst`].
pub enum GAstView {
    Const(ValueView),
    List(Seq<GAstView>, Option<Box<GAstView>>),
}

/// A syntax tree: a constant or a list.
#[derive(Debug)]
pub enum GAst {
    Const(Constant),
    List(Box<List>),
}

/// A list of the syntax: its items, and the tree after the dot where the
/// list is written with one.
#[derive(Debug)]
pub struct List(pub Vec<GAst>, pub Option<GAst>);

/// The views of the trees of a sequence, in order.
pub open spec fn gasts_view(s: Seq<GAst>) -> Seq<GAstView>
    decreases s,
{
    if s.len() == 0 {
        Seq::empty()
    } else {
        gasts_view(s.drop_last()).push(s.last().view())
    }
}

impl View for GAst {
    type V = GAstView;

    open spec fn view(&self) -> GAstView
        decreases self,
    {
        match self {
            GAst::Const(c) => GAstView::Const(c@),
            GAst::List(l) => GAstView::List(
                gasts_view(l.0@),
                match l.1 {
                    Some(t) => Some(Box::new(t.view())),
                    None => None,
                },
            ),
        }
    }
}

/// `gasts_view` maps the view over the sequence, element by element.
pub proof fn lemma_gasts_view(s: Seq<GAst>)
    ensures
        gasts_view(s).len() == s.len(),
        forall|i: int| 0 <= i < s.len() ==> #[trigger] gasts_view(s)[i] == s[i]@,
    decreases s.len(),
{
    if s.len() > 0 {
        lemma_gasts_view(s.drop_last());
        assert(gasts_view(s) == gasts_view(s.drop_last()).push(s.last().view()));
        assert forall|i: int| 0 <= i < s.len() implies #[trigger] gasts_view(s)[i] == s[i]@ by {
            if i < s.len() - 1 {
                assert(s.drop_last()[i] == s[i]);
            }
        }
    }
}

impl GAst {
    /// The constant, where the tree is one.
    pub fn get_const(&self) -> (r: Option<&Constant>)
        ensures
            match r {
                Some(c) => self@ == GAstView::Const(c@),
                None => self@ is List,
            },
    {
        match self {
            GAst::Const(c) => Some(c),
            GAst::List(_) => None,
        }
    }

}

impl Constant {
    /// The symbol, where the constant is one.
    pub fn get_sym(&self) -> (r: Option<&Symbol>)
        ensures
            match r {
                Some(s) => self@ == ValueView::Sym(s@),
                None => !(self@ is Sym),
            },
    {
        match self {
            Constant::Sym(s) => Some(s),
            _ => None,
        }
    }
}

/// The value of a constant.
pub fn simple_value_from_gast(i: &Constant) -> (r: Value)
    ensures
        r@ == i@,
{
    match i {
        Constant::Nil => Value::Nil,
        Constant::Bool(b) => Value::Bool(*b),
        Constant::Char(c) => Value::Char(*c),
        Constant::Int(n) => Value::Int(*n),
        Constant::Uint(n) => Value::Uint(*n),
        Constant::Float(t) => Value::Float(t.clone()),
        Constant::Str(s) => Value::Str(s.clone()),
        Constant::Sym(s) => Value::Sym(s.clone()),
    }
}

} // verus!
