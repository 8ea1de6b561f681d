//! Ground facts: lines of values in tables keyed by name and arity.
use vstd::prelude::*;
use crate::record::{Key, Record};
use crate::value::{lemma_views_of, views_of, Symbol, Value, ValueView};

verus! {

/// One ground fact: the values of its arguments, in order.
#[derive(Debug)]
pub struct ValueLine(pub Vec<Value>);

impl View for ValueLine {
    type V = Seq<ValueView>;

    open spec fn view(&self) -> Seq<ValueView> {
        views_of(self.0@)
    }
}

impl ValueLine {
    /// The number of values of the line.
    pub fn len(&self) -> (r: usize)
        ensures
            r == self@.len(),
    {
        proof {
            lemma_views_of(self.0@);
        }
        self.0.len()
    }
}

/// The facts asserted of one predicate, in the order they were asserted.
#[derive(Debug)]
pub struct ValueTable(pub Vec<ValueLine>);

impl View for ValueTable {
    type V = Seq<Seq<ValueView>>;

    open spec fn view(&self) -> Seq<Seq<ValueView>> {
        Seq::new(self.0.len() as nat, |i: int| self.0[i]@)
    }
}

/// The mathematical content of a [`FactRecord`].
pub type FactsView = Map<Key, Seq<Seq<ValueView>>>;

/// Every line under a key has as many values as the key's arity.
pub open spec fn facts_well_formed(facts: FactsView) -> bool {
    forall|key: Key, i: int|
        facts.contains_key(key) && 0 <= i < facts[key].len() ==> (#[trigger] facts[key][i]).len()
            == key.1
}

/// The fact tables of a database.
#[derive(Debug)]
pub struct FactRecord(pub Record<ValueTable>);

impl View for FactRecord {
    type V = FactsView;

    open spec fn view(&self) -> FactsView {
        Map::new(|k: Key| self.0.map().contains_key(k), |k: Key| self.0.map()[k]@)
    }
}

impl FactRecord {
    /// No key occurs twice, and every line has the length that its key names.
    pub open spec fn wf(&self) -> bool {
        &&& self.0.wf()
        &&& facts_well_formed(self@)
    }

    /// The record without facts.
    pub fn new() -> (r: FactRecord)
        ensures
            r.wf(),
            r@ == FactsView::empty(),
    {
        let r = FactRecord(Record::new());
        proof {
            assert(r@ =~= FactsView::empty());
        }
        r
    }

    /// The table of the facts under `(name, arity)`, if there is one.
    pub fn get(&self, name: &Symbol, arity: usize) -> (r: Option<&ValueTable>)
        requires
            self.wf(),
        ensures
            match r {
                Some(t) => self@.contains_key((name@, arity as nat)) && self@[(
                    name@,
                    arity as nat,
                )] == t@,
                None => !self@.contains_key((name@, arity as nat)),
            },
    {
        self.0.get(name, arity)
    }

    /// Appends `line` to the table under `name` and the line's length, and
    /// creates the table when there is none.
    pub fn assert_line(&mut self, name: Symbol, line: ValueLine)
        requires
            old(self).wf(),
        ensures
            final(self).wf(),
            final(self)@ == facts_with(old(self)@, name@, line@),
    {
        let arity = line.len();
        let ghost key = (name@, arity as nat);
        let ghost line_view = line@;
        match self.0.position(&name, arity) {
            Some(i) => {
                let mut table = self.0.take(i, ValueTable(Vec::new()));
                let ghost before = table@;
                table.0.push(line);
                proof {
                    old(self).0.lemma_entry(i as int);
                    assert(table@ =~= before.push(line_view));
                }
                self.0.replace(i, table);
            },
            None => {
                let mut lines: Vec<ValueLine> = Vec::new();
                lines.push(line);
                let table = ValueTable(lines);
                proof {
                    assert(table@ =~= Seq::<Seq<ValueView>>::empty().push(line_view));
                }
                self.0.add(name, arity, table);
            },
        }
        proof {
            assert(self@ =~= facts_with(old(self)@, key.0, line_view));
            assert forall|k: Key, i: int|
                self@.contains_key(k) && 0 <= i < self@[k].len() implies (#[trigger] self@[k][i]).len()
                == k.1 by {
                if k == key {
                    if old(self)@.contains_key(k) && i < old(self)@[k].len() {
                        assert(self@[k][i] == old(self)@[k][i]);
                    }
                } else {
                    assert(self@[k][i] == old(self)@[k][i]);
                }
            }
        }
    }
}

/// The lines under `key`: none where the key has no table.
pub open spec fn lines_of(facts: FactsView, key: Key) -> Seq<Seq<ValueView>> {
    if facts.contains_key(key) {
        facts[key]
    } else {
        Seq::empty()
    }
}

/// The fact tables after `line` was asserted under `name`: the line stands
/// last in the table for that name and the line's length.
pub open spec fn facts_with(facts: FactsView, name: Seq<char>, line: Seq<ValueView>) -> FactsView {
    facts.insert((name, line.len()), lines_of(facts, (name, line.len())).push(line))
}

} // verus!
