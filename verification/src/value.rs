//! Runtime values: atoms, cons pairs and tuples, with structural equality
//! and a canonical textual form.
use vstd::prelude::*;
use vstd::std_specs::cmp::PartialEqSpecImpl;
use vstd::std_specs::convert::FromSpecImpl;

verus! {

/// The mathematical content of a symbol: its characters.
pub type Name = Seq<char>;

/// `String::push` appends one character to the end of the string.
pub assume_specification[ String::push ](s: &mut String, c: char)
    ensures
        final(s)@ == old(s)@.push(c),
;

/// `String::push_str` appends a string slice to the end of the string.
pub assume_specification[ String::push_str ](s: &mut String, t: &str)
    ensures
        final(s)@ == old(s)@ + t@,
;

/// A symbol. Two symbols are the same when their names are.
#[derive(Debug)]
pub struct Symbol {
    pub name: String,
}

impl View for Symbol {
    type V = Name;

    open spec fn view(&self) -> Name {
        self.name@
    }
}

impl Symbol {
    /// The symbol with the given name.
    pub fn new(name: &str) -> (r: Symbol)
        ensures
            r@ == name@,
    {
        Symbol { name: name.to_owned() }
    }

    /// The name of the symbol.
    pub fn as_str(&self) -> (r: &str)
        ensures
            r@ == self@,
    {
        self.name.as_str()
    }
}

impl Clone for Symbol {
    fn clone(&self) -> (r: Symbol)
        ensures
            r == *self,
    {
        Symbol { name: self.name.clone() }
    }
}

impl PartialEq for Symbol {
    fn eq(&self, other: &Symbol) -> (r: bool) {
        self.name == other.name
    }
}

impl PartialEqSpecImpl for Symbol {
    open spec fn obeys_eq_spec() -> bool {
        true
    }

    open spec fn eq_spec(&self, other: &Symbol) -> bool {
        self@ == other@
    }
}

impl Eq for Symbol {

}

/// The names of the symbols of a sequence, in order.
pub open spec fn names_of(s: Seq<Symbol>) -> Seq<Name> {
    Seq::new(s.len(), |i: int| s[i]@)
}

/// The mathematical content of a [`Value`].
pub enum ValueView {
    Nil,
    Bool(bool),
    Char(char),
    Uint(u64),
    Int(i64),
    Float(Seq<char>),
    Str(Seq<char>),
    Sym(Name),
    Pair(Box<ValueView>, Box<ValueView>),
    Tuple(Seq<ValueView>),
}

/// A runtime value. A floating-point number is held by its decimal text: the
/// engine compares and prints it and never computes with it.
#[derive(Debug)]
pub enum Value {
    Nil,
    Bool(bool),
    Char(char),
    Uint(u64),
    Int(i64),
    Float(String),
    Str(String),
    Sym(Symbol),
    Pair(Box<Pair>),
    Tuple(Tuple),
}

/// A cons cell; chains of pairs that end in `Nil` encode lists.
#[derive(Debug)]
pub struct Pair(pub Value, pub Value);

/// A fixed sequence of values.
#[derive(Debug)]
pub struct Tuple(pub Vec<Value>);

/// A dictionary: string keys with their values, in the order of insertion.
#[derive(Debug)]
pub struct Dict(pub Vec<(String, Value)>);

impl View for Dict {
    type V = Seq<(Seq<char>, ValueView)>;

    open spec fn view(&self) -> Seq<(Seq<char>, ValueView)> {
        Seq::new(self.0.len() as nat, |i: int| (self.0[i].0@, self.0[i].1@))
    }
}

/// The views of the values of a sequence, in order.
pub open spec fn views_of(s: Seq<Value>) -> Seq<ValueView>
    decreases s,
{
    if s.len() == 0 {
        Seq::empty()
    } else {
        views_of(s.drop_last()).push(s.last().view())
    }
}

impl View for Value {
    type V = ValueView;

    open spec fn view(&self) -> ValueView
        decreases self,
    {
        match self {
            Value::Nil => ValueView::Nil,
            Value::Bool(b) => ValueView::Bool(*b),
            Value::Char(c) => ValueView::Char(*c),
            Value::Uint(n) => ValueView::Uint(*n),
            Value::Int(n) => ValueView::Int(*n),
            Value::Float(t) => ValueView::Float(t@),
            Value::Str(s) => ValueView::Str(s@),
            Value::Sym(s) => ValueView::Sym(s@),
            Value::Pair(p) => ValueView::Pair(Box::new(p.0.view()), Box::new(p.1.view())),
            Value::Tuple(t) => ValueView::Tuple(views_of(t.0@)),
        }
    }
}

impl View for Pair {
    type V = (ValueView, ValueView);

    open spec fn view(&self) -> (ValueView, ValueView) {
        (self.0@, self.1@)
    }
}

impl View for Tuple {
    type V = Seq<ValueView>;

    open spec fn view(&self) -> Seq<ValueView> {
        views_of(self.0@)
    }
}

/// `views_of` maps the view over the sequence, element by element.
pub proof fn lemma_views_of(s: Seq<Value>)
    ensures
        views_of(s).len() == s.len(),
        forall|i: int| 0 <= i < s.len() ==> #[trigger] views_of(s)[i] == s[i]@,
    decreases s.len(),
{
    if s.len() > 0 {
        lemma_views_of(s.drop_last());
        assert(views_of(s) == views_of(s.drop_last()).push(s.last().view()));
        assert forall|i: int| 0 <= i < s.len() implies #[trigger] views_of(s)[i] == s[i]@ by {
            if i < s.len() - 1 {
                assert(s.drop_last()[i] == s[i]);
            }
        }
    }
}

/// Appending one value appends its view.
pub proof fn lemma_views_of_push(s: Seq<Value>, v: Value)
    ensures
        views_of(s.push(v)) == views_of(s).push(v@),
{
    assert(s.push(v).drop_last() =~= s);
}

/// A copy of every value of `v`, in order.
pub fn clone_values(v: &Vec<Value>) -> (out: Vec<Value>)
    ensures
        views_of(out@) == views_of(v@),
    decreases v,
{
    let mut out: Vec<Value> = Vec::new();
    let mut i: usize = 0;
    while i < v.len()
        invariant
            i <= v.len(),
            out.len() == i,
            forall|j: int| 0 <= j < i ==> out[j]@ == v[j]@,
        decreases v.len() - i,
    {
        out.push(v[i].clone());
        i = i + 1;
    }
    proof {
        lemma_views_of(out@);
        lemma_views_of(v@);
        assert(views_of(out@) =~= views_of(v@));
    }
    out
}

/// Whether two sequences of values are equal, element by element.
pub fn values_equal(a: &Vec<Value>, b: &Vec<Value>) -> (r: bool)
    ensures
        r == (views_of(a@) == views_of(b@)),
    decreases a,
{
    proof {
        lemma_views_of(a@);
        lemma_views_of(b@);
    }
    if a.len() != b.len() {
        return false;
    }
    let mut i: usize = 0;
    while i < a.len()
        invariant
            i <= a.len(),
            a.len() == b.len(),
            views_of(a@).len() == a.len(),
            views_of(b@).len() == b.len(),
            forall|j: int| 0 <= j < a.len() ==> #[trigger] views_of(a@)[j] == a[j]@,
            forall|j: int| 0 <= j < b.len() ==> #[trigger] views_of(b@)[j] == b[j]@,
            forall|j: int| 0 <= j < i ==> a[j]@ == b[j]@,
        decreases a.len() - i,
    {
        if !a[i].eq(&b[i]) {
            proof {
                assert(views_of(a@)[i as int] != views_of(b@)[i as int]);
            }
            return false;
        }
        i = i + 1;
    }
    proof {
        assert(views_of(a@) =~= views_of(b@));
    }
    true
}

impl Clone for Value {
    fn clone(&self) -> (r: Value)
        ensures
            r@ == self@,
        decreases self,
    {
        match self {
            Value::Nil => Value::Nil,
            Value::Bool(b) => Value::Bool(*b),
            Value::Char(c) => Value::Char(*c),
            Value::Uint(n) => Value::Uint(*n),
            Value::Int(n) => Value::Int(*n),
            Value::Float(t) => Value::Float(t.clone()),
            Value::Str(s) => Value::Str(s.clone()),
            Value::Sym(s) => Value::Sym(s.clone()),
            Value::Pair(p) => Value::Pair(Box::new(Pair(p.0.clone(), p.1.clone()))),
            Value::Tuple(t) => Value::Tuple(Tuple(clone_values(&t.0))),
        }
    }
}

impl PartialEq for Value {
    fn eq(&self, other: &Value) -> (r: bool)
        decreases self,
    {
        match (self, other) {
            (Value::Nil, Value::Nil) => true,
            (Value::Bool(a), Value::Bool(b)) => *a == *b,
            (Value::Char(a), Value::Char(b)) => *a == *b,
            (Value::Uint(a), Value::Uint(b)) => *a == *b,
            (Value::Int(a), Value::Int(b)) => *a == *b,
            (Value::Float(a), Value::Float(b)) => *a == *b,
            (Value::Str(a), Value::Str(b)) => *a == *b,
            (Value::Sym(a), Value::Sym(b)) => *a == *b,
            (Value::Pair(a), Value::Pair(b)) => a.0.eq(&b.0) && a.1.eq(&b.1),
            (Value::Tuple(a), Value::Tuple(b)) => values_equal(&a.0, &b.0),
            _ => false,
        }
    }
}

impl PartialEqSpecImpl for Value {
    open spec fn obeys_eq_spec() -> bool {
        true
    }

    open spec fn eq_spec(&self, other: &Value) -> bool {
        self@ == other@
    }
}

impl Clone for Pair {
    fn clone(&self) -> (r: Pair)
        ensures
            r@ == self@,
    {
        Pair(self.0.clone(), self.1.clone())
    }
}

impl Clone for Tuple {
    fn clone(&self) -> (r: Tuple)
        ensures
            r@ == self@,
    {
        Tuple(clone_values(&self.0))
    }
}

/// The list of the values: a chain of pairs, one for each value in order,
/// that ends in `Nil`.
pub open spec fn list_of(items: Seq<ValueView>) -> ValueView
    decreases items.len(),
{
    if items.len() == 0 {
        ValueView::Nil
    } else {
        ValueView::Pair(Box::new(items[0]), Box::new(list_of(items.drop_first())))
    }
}

/// The views of the values of a slice, in order.
pub open spec fn slice_view(items: &[Value]) -> Seq<ValueView> {
    Seq::new(items@.len(), |i: int| items@[i]@)
}

impl From<&[Value]> for Value {
    /// The list of the values of the slice.
    fn from(items: &[Value]) -> (r: Value)
        ensures
            r@ == list_of(slice_view(items)),
    {
        Value::list(items)
    }
}

impl FromSpecImpl<&[Value]> for Value {
    /// The conversion is stated over views, in the contract of `from`: no
    /// function on values says which of the equal values it gives.
    open spec fn obeys_from_spec() -> bool {
        false
    }

    open spec fn from_spec(items: &[Value]) -> Value {
        Value::Nil
    }
}

impl Value {
    /// Whether the value is `Nil`.
    pub fn is_nil(&self) -> (r: bool)
        ensures
            r == (self@ is Nil),
    {
        matches!(self, Value::Nil)
    }

    /// Whether the value is a boolean.
    pub fn is_bool(&self) -> (r: bool)
        ensures
            r == (self@ is Bool),
    {
        matches!(self, Value::Bool(_))
    }

    /// Whether the value is a character.
    pub fn is_char(&self) -> (r: bool)
        ensures
            r == (self@ is Char),
    {
        matches!(self, Value::Char(_))
    }

    /// Whether the value is a signed integer.
    pub fn is_int(&self) -> (r: bool)
        ensures
            r == (self@ is Int),
    {
        matches!(self, Value::Int(_))
    }

    /// Whether the value is an unsigned integer.
    pub fn is_uint(&self) -> (r: bool)
        ensures
            r == (self@ is Uint),
    {
        matches!(self, Value::Uint(_))
    }

    /// Whether the value is a floating-point number.
    pub fn is_float(&self) -> (r: bool)
        ensures
            r == (self@ is Float),
    {
        matches!(self, Value::Float(_))
    }

    /// Whether the value is a string.
    pub fn is_str(&self) -> (r: bool)
        ensures
            r == (self@ is Str),
    {
        matches!(self, Value::Str(_))
    }

    /// Whether the value is a symbol.
    pub fn is_sym(&self) -> (r: bool)
        ensures
            r == (self@ is Sym),
    {
        matches!(self, Value::Sym(_))
    }

    /// Whether the value is a pair.
    pub fn is_pair(&self) -> (r: bool)
        ensures
            r == (self@ is Pair),
    {
        matches!(self, Value::Pair(_))
    }

    /// Whether the value is a tuple.
    pub fn is_tuple(&self) -> (r: bool)
        ensures
            r == (self@ is Tuple),
    {
        matches!(self, Value::Tuple(_))
    }

    /// The list of the values: a chain of pairs that ends in `Nil`.
    pub fn list(items: &[Value]) -> (r: Value)
        ensures
            r@ == list_of(slice_view(items)),
    {
        let ghost views = slice_view(items);
        let mut out = Value::Nil;
        let mut i: usize = items.len();
        proof {
            assert(views.skip(i as int) =~= Seq::<ValueView>::empty());
        }
        while i > 0
            invariant
                i <= items.len(),
                views == slice_view(items),
                out@ == list_of(views.skip(i as int)),
            decreases i,
        {
            i = i - 1;
            proof {
                let rest = views.skip(i as int);
                assert(rest.drop_first() =~= views.skip(i + 1));
                assert(rest[0] == items@[i as int]@);
            }
            out = Value::Pair(Box::new(Pair(items[i].clone(), out)));
        }
        proof {
            assert(views.skip(0) =~= views);
        }
        out
    }
}

} // verus!
