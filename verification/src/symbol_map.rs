//! A finite map keyed by symbols that keeps its entries in the order of
//! insertion.
use vstd::prelude::*;
use crate::value::{Name, Symbol};

verus! {

/// A map from symbols to items. Every name occurs at most once; the entries
/// stay in the order in which their names were first inserted.
#[derive(Debug)]
pub struct SymbolMap<V> {
    keys: Vec<Symbol>,
    items: Vec<V>,
}

impl<V> SymbolMap<V> {
    /// The names of the entries, in order.
    pub closed spec fn names(&self) -> Seq<Name> {
        Seq::new(self.keys.len() as nat, |i: int| self.keys[i]@)
    }

    /// The items of the entries, in order.
    pub closed spec fn items(&self) -> Seq<V> {
        self.items@
    }

    /// Every entry has a name and an item, and no name occurs twice.
    pub open spec fn wf(&self) -> bool {
        &&& self.names().len() == self.items().len()
        &&& self.names().no_duplicates()
    }

    /// The map that the entries stand for.
    pub open spec fn map(&self) -> Map<Name, V> {
        Map::new(
            |k: Name| self.names().contains(k),
            |k: Name| self.items()[self.names().index_of(k)],
        )
    }

    /// The entry at position `i` is the map's entry for its name.
    pub proof fn lemma_entry(&self, i: int)
        requires
            self.wf(),
            0 <= i < self.names().len(),
        ensures
            self.map().contains_key(self.names()[i]),
            self.map()[self.names()[i]] == self.items()[i],
            self.names().index_of(self.names()[i]) == i,
    {
        let k = self.names()[i];
        assert(self.names().contains(k));
        let j = self.names().index_of(k);
        assert(0 <= j < self.names().len() && self.names()[j] == k);
    }

    /// The empty map.
    pub fn new() -> (r: Self)
        ensures
            r.wf(),
            r.names() == Seq::<Name>::empty(),
            r.items() == Seq::<V>::empty(),
            r.map() == Map::<Name, V>::empty(),
    {
        let r = SymbolMap { keys: Vec::new(), items: Vec::new() };
        proof {
            assert(r.names() =~= Seq::<Name>::empty());
            assert(r.map() =~= Map::<Name, V>::empty());
        }
        r
    }

    /// The number of entries.
    pub fn len(&self) -> (r: usize)
        ensures
            r == self.names().len(),
    {
        self.keys.len()
    }

    /// The name of the entry at position `i`.
    pub fn name_at(&self, i: usize) -> (r: &Symbol)
        requires
            i < self.names().len(),
        ensures
            r@ == self.names()[i as int],
    {
        &self.keys[i]
    }

    /// The item of the entry at position `i`.
    pub fn item_at(&self, i: usize) -> (r: &V)
        requires
            i < self.items().len(),
        ensures
            *r == self.items()[i as int],
    {
        &self.items[i]
    }

    /// The position of the entry named `k`, if there is one.
    pub fn position(&self, k: &Symbol) -> (r: Option<usize>)
        requires
            self.wf(),
        ensures
            match r {
                Some(i) => i < self.names().len() && self.names()[i as int] == k@
                    && self.names().index_of(k@) == i,
                None => !self.names().contains(k@),
            },
    {
        let mut i: usize = 0;
        while i < self.keys.len()
            invariant
                i <= self.keys.len(),
                self.wf(),
                forall|j: int| 0 <= j < i ==> self.names()[j] != k@,
            decreases self.keys.len() - i,
        {
            if self.keys[i] == *k {
                proof {
                    self.lemma_entry(i as int);
                }
                return Some(i);
            }
            i = i + 1;
        }
        None
    }

    /// The item bound to `k`, if there is one.
    pub fn get(&self, k: &Symbol) -> (r: Option<&V>)
        requires
            self.wf(),
        ensures
            match r {
                Some(v) => self.map().contains_key(k@) && self.map()[k@] == *v,
                None => !self.map().contains_key(k@),
            },
    {
        match self.position(k) {
            Some(i) => Some(&self.items[i]),
            None => None,
        }
    }

    /// Binds `k` to `v`. An entry of that name keeps its position and takes
    /// the new item; a new name is added at the end.
    pub fn insert(&mut self, k: Symbol, v: V)
        requires
            old(self).wf(),
        ensures
            final(self).wf(),
            final(self).map() == old(self).map().insert(k@, v),
            old(self).names().contains(k@) ==> final(self).names() == old(self).names()
                && final(self).items() == old(self).items().update(
                old(self).names().index_of(k@),
                v,
            ),
            !old(self).names().contains(k@) ==> final(self).names() == old(self).names().push(k@)
                && final(self).items() == old(self).items().push(v),
    {
        match self.position(&k) {
            Some(i) => {
                self.items.set(i, v);
                proof {
                    assert(self.names() =~= old(self).names());
                    assert forall|n: Name| self.map().contains_key(n) implies #[trigger] self.map()[n]
                        == old(self).map().insert(k@, v)[n] by {
                        let j = self.names().index_of(n);
                        assert(0 <= j < self.names().len() && self.names()[j] == n);
                    }
                    assert(self.map() =~= old(self).map().insert(k@, v));
                }
            },
            None => {
                self.keys.push(k);
                self.items.push(v);
                proof {
                    let before = old(self).names();
                    let after = self.names();
                    assert(after =~= before.push(k@));
                    assert forall|a: int, b: int|
                        0 <= a < after.len() && 0 <= b < after.len() && a != b implies after[a]
                        != after[b] by {
                        if a < before.len() && b < before.len() {
                            assert(before[a] != before[b]);
                        } else if a < before.len() {
                            assert(before.contains(before[a]));
                        } else {
                            assert(before.contains(before[b]));
                        }
                    }
                    assert forall|n: Name| #[trigger] self.map().contains_key(n) == old(
                        self,
                    ).map().insert(k@, v).contains_key(n) by {
                        if before.contains(n) {
                            let j = before.index_of(n);
                            assert(0 <= j < before.len() && before[j] == n);
                            assert(after[j] == n);
                        }
                        if n == k@ {
                            assert(after[before.len() as int] == n);
                        }
                        if after.contains(n) {
                            let j = after.index_of(n);
                            assert(0 <= j < after.len() && after[j] == n);
                            if j < before.len() {
                                assert(before[j] == n);
                            }
                        }
                    }
                    assert forall|n: Name| self.map().contains_key(n) implies #[trigger] self.map()[n]
                        == old(self).map().insert(k@, v)[n] by {
                        let j = after.index_of(n);
                        assert(0 <= j < after.len() && after[j] == n);
                        if j < before.len() {
                            assert(before[j] == n);
                            let j2 = before.index_of(n);
                            assert(0 <= j2 < before.len() && before[j2] == n);
                            assert(after[j2] == n);
                        }
                    }
                    assert(self.map() =~= old(self).map().insert(k@, v));
                }
            },
        }
    }
}

} // verus!
