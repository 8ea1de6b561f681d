//! The binding environment: frames of bindings, chained from the innermost
//! to the outermost.
use vstd::prelude::*;
use crate::rule::{Expr, ExprView};
use crate::symbol_map::SymbolMap;
use crate::value::{Name, Symbol, Value, ValueView};

verus! {

/// The bindings of one frame.
pub type FrameView = Map<Name, ValueView>;

/// A chain of frames; the innermost frame stands first.
pub type ChainView = Seq<FrameView>;

/// The bindings of the actual parameters of a call.
pub type BindingsView = Map<Name, ExprView>;

/// The value that the chain binds to `k`: that of the innermost frame that
/// has a binding for it.
pub open spec fn lookup(chain: ChainView, k: Name) -> Option<ValueView>
    decreases chain.len(),
{
    if chain.len() == 0 {
        None
    } else if chain[0].contains_key(k) {
        Some(chain[0][k])
    } else {
        lookup(chain.drop_first(), k)
    }
}

/// The chain with a new innermost frame.
pub open spec fn with_frame(frame: FrameView, chain: ChainView) -> ChainView {
    seq![frame] + chain
}

/// Looking a name up in a chain with a new innermost frame asks that frame
/// first and the rest of the chain after it.
pub proof fn lemma_lookup_with_frame(frame: FrameView, chain: ChainView, k: Name)
    ensures
        lookup(with_frame(frame, chain), k) == if frame.contains_key(k) {
            Some(frame[k])
        } else {
            lookup(chain, k)
        },
{
    assert(with_frame(frame, chain).drop_first() =~= chain);
}

/// One frame of bindings from symbols to values.
#[derive(Debug)]
pub struct SimpleScope(pub SymbolMap<Value>);

impl View for SimpleScope {
    type V = FrameView;

    open spec fn view(&self) -> FrameView {
        Map::new(|k: Name| self.0.map().contains_key(k), |k: Name| self.0.map()[k]@)
    }
}

impl SimpleScope {
    /// The frame is well formed: no symbol is bound twice.
    pub open spec fn wf(&self) -> bool {
        self.0.wf()
    }

    /// The empty frame.
    pub fn new() -> (r: SimpleScope)
        ensures
            r.wf(),
            r@ == FrameView::empty(),
            r.0.names().len() == 0,
    {
        let r = SimpleScope(SymbolMap::new());
        proof {
            assert(r@ =~= FrameView::empty());
        }
        r
    }

    /// The number of bindings.
    pub fn len(&self) -> (r: usize)
        ensures
            r == self.0.names().len(),
    {
        self.0.len()
    }

    /// The value bound to `k` in this frame, if there is one.
    pub fn find(&self, k: &Symbol) -> (r: Option<&Value>)
        requires
            self.wf(),
        ensures
            match r {
                Some(v) => self@.contains_key(k@) && self@[k@] == v@,
                None => !self@.contains_key(k@),
            },
    {
        self.0.get(k)
    }

    /// Binds `k` to `v` in this frame.
    pub fn set(&mut self, k: &Symbol, v: &Value)
        requires
            old(self).wf(),
        ensures
            final(self).wf(),
            final(self)@ == old(self)@.insert(k@, v@),
    {
        self.0.insert(k.clone(), v.clone());
        proof {
            assert(self@ =~= old(self)@.insert(k@, v@));
        }
    }

    /// The bindings as pairs of a symbol and its value, in the order in which
    /// the symbols were first bound.
    pub fn to_pairs(&self) -> (r: Vec<(Symbol, Value)>)
        requires
            self.wf(),
        ensures
            r.len() == self.0.names().len(),
            forall|i: int|
                0 <= i < r.len() ==> (#[trigger] r[i]).0@ == self.0.names()[i] && self@.contains_key(
                    r[i].0@,
                ) && r[i].1@ == self@[r[i].0@],
            forall|k: Name|
                self@.contains_key(k) ==> exists|i: int| 0 <= i < r.len() && (#[trigger] r[i]).0@ == k,
    {
        let mut out: Vec<(Symbol, Value)> = Vec::new();
        let mut i: usize = 0;
        while i < self.0.len()
            invariant
                i <= self.0.names().len(),
                self.wf(),
                out.len() == i,
                forall|j: int|
                    0 <= j < i ==> (#[trigger] out[j]).0@ == self.0.names()[j] && self@.contains_key(
                        out[j].0@,
                    ) && out[j].1@ == self@[out[j].0@],
            decreases self.0.names().len() - i,
        {
            proof {
                self.0.lemma_entry(i as int);
            }
            out.push((self.0.name_at(i).clone(), self.0.item_at(i).clone()));
            i = i + 1;
        }
        proof {
            assert forall|k: Name| self@.contains_key(k) implies exists|i: int|
                0 <= i < out.len() && (#[trigger] out[i]).0@ == k by {
                let j = self.0.names().index_of(k);
                assert(0 <= j < self.0.names().len() && self.0.names()[j] == k);
                assert(out[j].0@ == k);
            }
        }
        out
    }
}

/// The actual parameters of a call: a map from symbols to expressions.
#[derive(Debug)]
pub struct Bindings(pub SymbolMap<Expr>);

impl View for Bindings {
    type V = BindingsView;

    open spec fn view(&self) -> BindingsView {
        Map::new(|k: Name| self.0.map().contains_key(k), |k: Name| self.0.map()[k]@)
    }
}

impl Bindings {
    /// The map is well formed: no symbol is bound twice.
    pub open spec fn wf(&self) -> bool {
        self.0.wf()
    }

    /// The empty map.
    pub fn new() -> (r: Bindings)
        ensures
            r.wf(),
            r@ == BindingsView::empty(),
    {
        let r = Bindings(SymbolMap::new());
        proof {
            assert(r@ =~= BindingsView::empty());
        }
        r
    }

    /// The expression bound to `k`, if there is one.
    pub fn get(&self, k: &Symbol) -> (r: Option<&Expr>)
        requires
            self.wf(),
        ensures
            match r {
                Some(e) => self@.contains_key(k@) && self@[k@] == e@,
                None => !self@.contains_key(k@),
            },
    {
        self.0.get(k)
    }

    /// Binds `k` to `e`.
    pub fn insert(&mut self, k: &Symbol, e: &Expr)
        requires
            old(self).wf(),
        ensures
            final(self).wf(),
            final(self)@ == old(self)@.insert(k@, e@),
    {
        self.0.insert(k.clone(), e.clone());
        proof {
            assert(self@ =~= old(self)@.insert(k@, e@));
        }
    }
}

/// A frame with the chain of frames that enclose it.
#[derive(Debug)]
pub struct Scope<'a> {
    pub this_level: SimpleScope,
    pub parent: Option<&'a Scope<'a>>,
}

impl<'a> Scope<'a> {
    /// The frames from this one outwards.
    pub open spec fn chain(&self) -> ChainView
        decreases self,
    {
        match self.parent {
            Some(p) => with_frame(self.this_level@, p.chain()),
            None => seq![self.this_level@],
        }
    }

    /// Every frame of the chain is well formed.
    pub open spec fn wf(&self) -> bool
        decreases self,
    {
        &&& self.this_level.wf()
        &&& match self.parent {
            Some(p) => p.wf(),
            None => true,
        }
    }

    /// The chain has a frame, and this one is its first.
    pub proof fn lemma_chain(&self)
        ensures
            self.chain().len() > 0,
            self.chain()[0] == self.this_level@,
    {
    }

    /// A scope of one empty frame, with nothing around it.
    pub fn new() -> (r: Scope<'a>)
        ensures
            r.wf(),
            r.parent is None,
            r.chain() == seq![FrameView::empty()],
            forall|k: Name| lookup(r.chain(), k) is None,
    {
        let r = Scope { this_level: SimpleScope::new(), parent: None };
        proof {
            assert forall|k: Name| lookup(r.chain(), k) is None by {
                assert(lookup(r.chain().drop_first(), k) is None);
            }
        }
        r
    }

    /// The value bound to `k` by the innermost frame that binds it.
    pub fn find(&self, k: &Symbol) -> (r: Option<&Value>)
        requires
            self.wf(),
        ensures
            match r {
                Some(v) => lookup(self.chain(), k@) == Some(v@),
                None => lookup(self.chain(), k@) is None,
            },
        decreases self,
    {
        match self.this_level.find(k) {
            Some(v) => Some(v),
            None => match self.parent {
                Some(p) => {
                    proof {
                        lemma_lookup_with_frame(self.this_level@, p.chain(), k@);
                    }
                    p.find(k)
                },
                None => {
                    proof {
                        assert(lookup(self.chain().drop_first(), k@) is None);
                    }
                    None
                },
            },
        }
    }

    /// Binds `k` to `v` in the innermost frame. The frames around it are not
    /// consulted and do not change.
    pub fn set(&mut self, k: &Symbol, v: &Value)
        requires
            old(self).wf(),
        ensures
            final(self).wf(),
            final(self).parent == old(self).parent,
            final(self).this_level@ == old(self).this_level@.insert(k@, v@),
            final(self).chain() == old(self).chain().update(
                0,
                old(self).chain()[0].insert(k@, v@),
            ),
    {
        self.this_level.set(k, v);
        proof {
            assert(self.chain() =~= old(self).chain().update(
                0,
                old(self).chain()[0].insert(k@, v@),
            ));
        }
    }

    /// A scope whose innermost frame is `frame` and whose enclosing chain is
    /// this scope.
    pub fn new_level<'b>(&'b self, frame: SimpleScope) -> (r: Scope<'b>)
        requires
            self.wf(),
            frame.wf(),
        ensures
            r.wf(),
            r.this_level == frame,
            r.parent == Some(self),
            r.chain() == with_frame(frame@, self.chain()),
    {
        Scope { this_level: frame, parent: Some(self) }
    }
}

} // verus!
