//! A small table keyed by stock symbol. It remembers the order in which
//! symbols first arrived, so that a walk over it is the same every time.

use vstd::prelude::*;

verus! {

/// A table from symbol to `V` that keeps its symbols in arrival order.
pub struct SymbolMap<V> {
    keys: Vec<String>,
    values: Vec<V>,
}

impl<V> View for SymbolMap<V> {
    type V = Map<Seq<char>, V>;

    /// The table as a map from symbol to value.
    open spec fn view(&self) -> Map<Seq<char>, V> {
        Map::new(
            |symbol: Seq<char>| self.symbols().contains(symbol),
            |symbol: Seq<char>| self.entries()[self.symbols().index_of(symbol)],
        )
    }
}

impl<V> SymbolMap<V> {
    /// The symbols, in the order in which they arrived.
    pub closed spec fn symbols(&self) -> Seq<Seq<char>> {
        Seq::new(self.keys@.len(), |i: int| self.keys@[i]@)
    }

    /// The values, each at the position of its symbol.
    pub closed spec fn entries(&self) -> Seq<V> {
        self.values@
    }

    /// Every symbol has one value and occurs once.
    pub closed spec fn wf(&self) -> bool {
        &&& self.keys@.len() == self.values@.len()
        &&& self.symbols().no_duplicates()
    }

    /// In a well-formed table, symbols and values line up: the value of
    /// the symbol at position `i` is the entry at position `i`.
    pub proof fn lemma_entry_at(&self, i: int)
        requires
            self.wf(),
            0 <= i < self.symbols().len(),
        ensures
            self.symbols().len() == self.entries().len(),
            self@.contains_key(self.symbols()[i]),
            self@[self.symbols()[i]] == self.entries()[i],
            self.symbols().index_of(self.symbols()[i]) == i,
    {
        let symbol = self.symbols()[i];
        assert(self.symbols().contains(symbol));
        let j = self.symbols().index_of(symbol);
        assert(0 <= j < self.symbols().len() && self.symbols()[j] == symbol);
    }

    /// A symbol is in the table exactly if it stands at some position, and
    /// no symbol stands at two.
    pub proof fn lemma_contains(&self, symbol: Seq<char>)
        requires
            self.wf(),
        ensures
            self.symbols().len() == self.entries().len(),
            self.symbols().no_duplicates(),
            self@.contains_key(symbol) <==> self.symbols().contains(symbol),
            self@.contains_key(symbol) ==> {
                let i = self.symbols().index_of(symbol);
                &&& 0 <= i < self.symbols().len()
                &&& self.symbols()[i] == symbol
                &&& self@[symbol] == self.entries()[i]
            },
    {
    }

    /// An empty table.
    pub fn new() -> (table: Self)
        ensures
            table.wf(),
            table@ == Map::<Seq<char>, V>::empty(),
            table.symbols() == Seq::<Seq<char>>::empty(),
            table.entries() == Seq::<V>::empty(),
    {
        let table = SymbolMap { keys: Vec::new(), values: Vec::new() };
        assert(table.symbols() =~= Seq::<Seq<char>>::empty());
        assert(table@ =~= Map::<Seq<char>, V>::empty());
        table
    }

    /// How many symbols the table holds.
    pub fn len(&self) -> (n: usize)
        requires
            self.wf(),
        ensures
            n == self.symbols().len(),
            n == self.entries().len(),
    {
        self.keys.len()
    }

    /// The position of `symbol`, if the table holds it.
    pub fn position(&self, symbol: &str) -> (found: Option<usize>)
        requires
            self.wf(),
        ensures
            found is Some <==> self@.contains_key(symbol@),
            found is Some ==> found->0 < self.symbols().len() && self.symbols()[found->0 as int]
                == symbol@ && self.symbols().index_of(symbol@) == found->0,
    {
        let wanted: String = symbol.to_owned();
        let mut i: usize = 0;
        while i < self.keys.len()
            invariant
                self.wf(),
                wanted@ == symbol@,
                i <= self.keys@.len(),
                forall|j: int| 0 <= j < i ==> self.symbols()[j] != symbol@,
            decreases self.keys@.len() - i,
        {
            if self.keys[i] == wanted {
                proof {
                    self.lemma_entry_at(i as int);
                }
                return Some(i);
            }
            i += 1;
        }
        None
    }

    /// The symbol at position `i`.
    pub fn symbol_at(&self, i: usize) -> (symbol: &String)
        requires
            self.wf(),
            i < self.symbols().len(),
        ensures
            symbol@ == self.symbols()[i as int],
    {
        &self.keys[i]
    }

    /// The value at position `i`.
    pub fn value_at(&self, i: usize) -> (value: &V)
        requires
            self.wf(),
            i < self.symbols().len(),
        ensures
            *value == self.entries()[i as int],
            *value == self@[self.symbols()[i as int]],
    {
        proof {
            self.lemma_entry_at(i as int);
        }
        &self.values[i]
    }

    /// The value of `symbol`, if the table holds it.
    pub fn get(&self, symbol: &str) -> (value: Option<&V>)
        requires
            self.wf(),
        ensures
            value is Some <==> self@.contains_key(symbol@),
            value is Some ==> *value->0 == self@[symbol@],
    {
        match self.position(symbol) {
            Some(i) => {
                proof {
                    self.lemma_entry_at(i as int);
                }
                Some(&self.values[i])
            },
            None => None,
        }
    }

    /// Sets the value of `symbol`. A symbol that the table already holds
    /// keeps its position; a new one goes to the end.
    pub fn insert(&mut self, symbol: &str, value: V)
        requires
            old(self).wf(),
        ensures
            final(self).wf(),
            final(self)@ == old(self)@.insert(symbol@, value),
            old(self)@.contains_key(symbol@) ==> final(self).symbols() == old(self).symbols()
                && final(self).entries() == old(self).entries().update(
                old(self).symbols().index_of(symbol@),
                value,
            ),
            !old(self)@.contains_key(symbol@) ==> final(self).symbols() == old(
                self,
            ).symbols().push(symbol@) && final(self).entries() == old(self).entries().push(value),
    {
        let ghost before = *self;
        match self.position(symbol) {
            Some(i) => {
                self.values.set(i, value);
                proof {
                    assert(self.symbols() =~= before.symbols());
                    assert forall|s: Seq<char>| #[trigger]
                        self@.contains_key(s) implies self@[s] == before@.insert(symbol@, value)[s] by {
                        before.lemma_contains(s);
                    }
                    assert(self@ =~= before@.insert(symbol@, value));
                }
            },
            None => {
                self.keys.push(symbol.to_owned());
                self.values.push(value);
                proof {
                    let n = before.symbols().len() as int;
                    assert(self.symbols() =~= before.symbols().push(symbol@));
                    assert(self.symbols().no_duplicates());
                    assert(self.symbols()[n] == symbol@);
                    self.lemma_entry_at(n);
                    assert forall|s: Seq<char>|
                        before.symbols().contains(s) implies self.symbols().contains(s) by {
                        let j = before.symbols().index_of(s);
                        assert(self.symbols()[j] == s);
                    }
                    assert forall|s: Seq<char>| #[trigger]
                        self@.contains_key(s) implies before@.insert(symbol@, value).contains_key(s)
                        && self@[s] == before@.insert(symbol@, value)[s] by {
                        let j = self.symbols().index_of(s);
                        self.lemma_entry_at(j);
                        if j < n {
                            assert(before.symbols()[j] == s);
                            before.lemma_entry_at(j);
                        }
                    }
                    assert(self@ =~= before@.insert(symbol@, value));
                }
            },
        }
    }

    /// Takes `symbol` out of the table. The symbols that stay keep their
    /// order.
    pub fn remove(&mut self, symbol: &str)
        requires
            old(self).wf(),
        ensures
            final(self).wf(),
            final(self)@ == old(self)@.remove(symbol@),
            old(self)@.contains_key(symbol@) ==> final(self).symbols() == old(
                self,
            ).symbols().remove(old(self).symbols().index_of(symbol@)) && final(self).entries()
                == old(self).entries().remove(old(self).symbols().index_of(symbol@)),
            !old(self)@.contains_key(symbol@) ==> final(self).symbols() == old(self).symbols()
                && final(self).entries() == old(self).entries(),
    {
        let ghost before = *self;
        match self.position(symbol) {
            Some(i) => {
                self.keys.remove(i);
                self.values.remove(i);
                proof {
                    let at = i as int;
                    assert(self.symbols() =~= before.symbols().remove(at));
                    assert forall|a: int, b: int|
                        0 <= a < self.symbols().len() && 0 <= b < self.symbols().len() && a
                            != b implies self.symbols()[a] != self.symbols()[b] by {
                        let a0 = if a < at {
                            a
                        } else {
                            a + 1
                        };
                        let b0 = if b < at {
                            b
                        } else {
                            b + 1
                        };
                        assert(self.symbols()[a] == before.symbols()[a0]);
                        assert(self.symbols()[b] == before.symbols()[b0]);
                    }
                    assert(self.symbols().no_duplicates());
                    assert forall|s: Seq<char>| #[trigger]
                        self@.contains_key(s) implies before@.remove(symbol@).contains_key(s)
                        && self@[s] == before@.remove(symbol@)[s] by {
                        let j = self.symbols().index_of(s);
                        self.lemma_entry_at(j);
                        let j0 = if j < at {
                            j
                        } else {
                            j + 1
                        };
                        assert(before.symbols()[j0] == s);
                        before.lemma_entry_at(j0);
                    }
                    assert forall|s: Seq<char>| #[trigger]
                        before@.remove(symbol@).contains_key(s) implies self@.contains_key(s) by {
                        let j0 = before.symbols().index_of(s);
                        before.lemma_entry_at(j0);
                        let j = if j0 < at {
                            j0
                        } else {
                            j0 - 1
                        };
                        assert(self.symbols()[j] == s);
                    }
                    assert(self@ =~= before@.remove(symbol@));
                }
            },
            None => {
                proof {
                    assert(self@ =~= before@.remove(symbol@));
                }
            },
        }
    }
}

} // verus!
