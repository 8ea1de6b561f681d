//! Tables keyed by a predicate's name and arity.
use vstd::prelude::*;
use crate::value::{Name, Symbol};

verus! {

/// The key of a table: the name of a predicate and its number of arguments.
pub type Key = (Name, nat);

/// Tables under keys of name and arity. Every key occurs at most once; the
/// tables stay in the order in which their keys were first inserted.
#[derive(Debug)]
pub struct Record<T> {
    keys: Vec<(Symbol, usize)>,
    tables: Vec<T>,
}

impl<T> Record<T> {
    /// The keys of the tables, in order.
    pub closed spec fn keys(&self) -> Seq<Key> {
        Seq::new(self.keys.len() as nat, |i: int| (self.keys[i].0@, self.keys[i].1 as nat))
    }

    /// The tables, in order.
    pub closed spec fn tables(&self) -> Seq<T> {
        self.tables@
    }

    /// Every key has a table, and no key occurs twice.
    pub open spec fn wf(&self) -> bool {
        &&& self.keys().len() == self.tables().len()
        &&& self.keys().no_duplicates()
    }

    /// The map that the tables stand for.
    pub open spec fn map(&self) -> Map<Key, T> {
        Map::new(
            |k: Key| self.keys().contains(k),
            |k: Key| self.tables()[self.keys().index_of(k)],
        )
    }

    /// The table at position `i` is the map's entry for its key.
    pub proof fn lemma_entry(&self, i: int)
        requires
            self.wf(),
            0 <= i < self.keys().len(),
        ensures
            self.map().contains_key(self.keys()[i]),
            self.map()[self.keys()[i]] == self.tables()[i],
            self.keys().index_of(self.keys()[i]) == i,
    {
        let k = self.keys()[i];
        assert(self.keys().contains(k));
        let j = self.keys().index_of(k);
        assert(0 <= j < self.keys().len() && self.keys()[j] == k);
    }

    /// The record without tables.
    pub fn new() -> (r: Self)
        ensures
            r.wf(),
            r.keys() == Seq::<Key>::empty(),
            r.tables() == Seq::<T>::empty(),
            r.map() == Map::<Key, T>::empty(),
    {
        let r = Record { keys: Vec::new(), tables: Vec::new() };
        proof {
            assert(r.keys() =~= Seq::<Key>::empty());
            assert(r.map() =~= Map::<Key, T>::empty());
        }
        r
    }

    /// The number of tables.
    pub fn len(&self) -> (r: usize)
        ensures
            r == self.keys().len(),
    {
        self.keys.len()
    }

    /// The position of the table under `(name, arity)`, if there is one.
    pub fn position(&self, name: &Symbol, arity: usize) -> (r: Option<usize>)
        requires
            self.wf(),
        ensures
            match r {
                Some(i) => i < self.keys().len() && self.keys()[i as int] == (name@, arity as nat)
                    && self.keys().index_of((name@, arity as nat)) == i,
                None => !self.keys().contains((name@, arity as nat)),
            },
    {
        let mut i: usize = 0;
        while i < self.keys.len()
            invariant
                i <= self.keys.len(),
                self.wf(),
                forall|j: int| 0 <= j < i ==> self.keys()[j] != (name@, arity as nat),
            decreases self.keys.len() - i,
        {
            if self.keys[i].1 == arity && self.keys[i].0 == *name {
                proof {
                    self.lemma_entry(i as int);
                }
                return Some(i);
            }
            i = i + 1;
        }
        None
    }

    /// The table under `(name, arity)`, if there is one.
    pub fn get(&self, name: &Symbol, arity: usize) -> (r: Option<&T>)
        requires
            self.wf(),
        ensures
            match r {
                Some(t) => self.map().contains_key((name@, arity as nat)) && self.map()[(
                    name@,
                    arity as nat,
                )] == *t,
                None => !self.map().contains_key((name@, arity as nat)),
            },
    {
        match self.position(name, arity) {
            Some(i) => Some(&self.tables[i]),
            None => None,
        }
    }

    /// Puts `table` under the key at position `i`, in place of the table
    /// that stood there.
    pub(crate) fn replace(&mut self, i: usize, table: T)
        requires
            old(self).wf(),
            i < old(self).keys().len(),
        ensures
            final(self).wf(),
            final(self).keys() == old(self).keys(),
            final(self).tables() == old(self).tables().update(i as int, table),
            final(self).map() == old(self).map().insert(old(self).keys()[i as int], table),
    {
        self.tables.set(i, table);
        proof {
            assert(self.keys() =~= old(self).keys());
            old(self).lemma_entry(i as int);
            assert forall|k: Key| self.map().contains_key(k) implies #[trigger] self.map()[k]
                == old(self).map().insert(old(self).keys()[i as int], table)[k] by {
                let j = self.keys().index_of(k);
                assert(0 <= j < self.keys().len() && self.keys()[j] == k);
            }
            assert(self.map() =~= old(self).map().insert(old(self).keys()[i as int], table));
        }
    }

    /// Takes the table at position `i` out, leaving `filler` in its place.
    pub(crate) fn take(&mut self, i: usize, filler: T) -> (r: T)
        requires
            old(self).wf(),
            i < old(self).keys().len(),
        ensures
            final(self).wf(),
            final(self).keys() == old(self).keys(),
            final(self).tables() == old(self).tables().update(i as int, filler),
            final(self).map() == old(self).map().insert(old(self).keys()[i as int], filler),
            r == old(self).tables()[i as int],
    {
        self.tables.push(filler);
        let r = self.tables.swap_remove(i);
        proof {
            assert(self.keys() =~= old(self).keys());
            assert(self.tables() =~= old(self).tables().update(i as int, filler));
            old(self).lemma_entry(i as int);
            assert forall|k: Key| self.map().contains_key(k) implies #[trigger] self.map()[k]
                == old(self).map().insert(old(self).keys()[i as int], filler)[k] by {
                let j = self.keys().index_of(k);
                assert(0 <= j < self.keys().len() && self.keys()[j] == k);
            }
            assert(self.map() =~= old(self).map().insert(old(self).keys()[i as int], filler));
        }
        r
    }

    /// Adds `table` under a key that has none.
    pub(crate) fn add(&mut self, name: Symbol, arity: usize, table: T)
        requires
            old(self).wf(),
            !old(self).map().contains_key((name@, arity as nat)),
        ensures
            final(self).wf(),
            final(self).keys() == old(self).keys().push((name@, arity as nat)),
            final(self).tables() == old(self).tables().push(table),
            final(self).map() == old(self).map().insert((name@, arity as nat), table),
    {
        let ghost key = (name@, arity as nat);
        self.keys.push((name, arity));
        self.tables.push(table);
        proof {
            let before = old(self).keys();
            let after = self.keys();
            assert(after =~= before.push(key));
            assert forall|a: int, b: int|
                0 <= a < after.len() && 0 <= b < after.len() && a != b implies after[a]
                != after[b] by {
                if a < before.len() && b < before.len() {
                    assert(before[a] != before[b]);
                } else if a < before.len() {
                    assert(before.contains(before[a]));
                } else {
                    assert(before.contains(before[b]));
                }
            }
            assert forall|n: Key| #[trigger] self.map().contains_key(n) == old(self).map().insert(
                key,
                table,
            ).contains_key(n) by {
                if before.contains(n) {
                    let j = before.index_of(n);
                    assert(0 <= j < before.len() && before[j] == n);
                    assert(after[j] == n);
                }
                if n == key {
                    assert(after[before.len() as int] == n);
                }
                if after.contains(n) {
                    let j = after.index_of(n);
                    assert(0 <= j < after.len() && after[j] == n);
                    if j < before.len() {
                        assert(before[j] == n);
                    }
                }
            }
            assert forall|n: Key| self.map().contains_key(n) implies #[trigger] self.map()[n]
                == old(self).map().insert(key, table)[n] by {
                let j = after.index_of(n);
                assert(0 <= j < after.len() && after[j] == n);
                if j < before.len() {
                    assert(before[j] == n);
                    let j2 = before.index_of(n);
                    assert(0 <= j2 < before.len() && before[j2] == n);
                    assert(after[j2] == n);
                }
            }
            assert(self.map() =~= old(self).map().insert(key, table));
        }
    }
}

} // verus!
