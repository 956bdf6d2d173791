//! The latest known price of each symbol.

use vstd::prelude::*;
use crate::models::PriceUpdate;
use crate::symbol_map::SymbolMap;

verus! {

/// Latest price per symbol, in minor units. A new price for a symbol
/// replaces the one before it; a symbol, once seen, is never dropped.
pub struct PriceBook {
    prices: SymbolMap<u64>,
}

impl View for PriceBook {
    type V = Map<Seq<char>, u64>;

    closed spec fn view(&self) -> Map<Seq<char>, u64> {
        self.prices@
    }
}

impl PriceBook {
    pub closed spec fn wf(&self) -> bool {
        self.prices.wf()
    }

    /// The symbols seen so far, in the order in which they were first seen.
    pub closed spec fn symbols(&self) -> Seq<Seq<char>> {
        self.prices.symbols()
    }

    /// The symbols of a book are distinct, and each is priced.
    pub proof fn lemma_symbols(&self)
        requires
            self.wf(),
        ensures
            self.symbols().no_duplicates(),
            forall|i: int| 0 <= i < self.symbols().len() ==> self@.contains_key(#[trigger] self.symbols()[i]),
            forall|symbol: Seq<char>| self@.contains_key(symbol) <==> self.symbols().contains(symbol),
    {
        self.prices.lemma_contains(Seq::empty());
        assert forall|i: int| 0 <= i < self.symbols().len() implies self@.contains_key(
            #[trigger] self.symbols()[i],
        ) by {
            self.prices.lemma_entry_at(i);
        }
    }

    /// A book that has seen no symbol.
    pub fn new() -> (book: Self)
        ensures
            book.wf(),
            book@ == Map::<Seq<char>, u64>::empty(),
            book.symbols() == Seq::<Seq<char>>::empty(),
    {
        PriceBook { prices: SymbolMap::new() }
    }

    /// Records `price` as the latest price of `symbol`.
    pub fn update(&mut self, symbol: &str, price: u64)
        requires
            old(self).wf(),
        ensures
            final(self).wf(),
            final(self)@ == old(self)@.insert(symbol@, price),
            old(self)@.contains_key(symbol@) ==> final(self).symbols() == old(self).symbols(),
            !old(self)@.contains_key(symbol@) ==> final(self).symbols() == old(
                self,
            ).symbols().push(symbol@),
    {
        self.prices.insert(symbol, price);
    }

    /// Records the price that `update` carries.
    pub fn apply(&mut self, update: &PriceUpdate)
        requires
            old(self).wf(),
        ensures
            final(self).wf(),
            final(self)@ == old(self)@.insert(update.name@, update.price),
            old(self)@.contains_key(update.name@) ==> final(self).symbols() == old(
                self,
            ).symbols(),
            !old(self)@.contains_key(update.name@) ==> final(self).symbols() == old(
                self,
            ).symbols().push(update.name@),
    {
        self.update(update.name.as_str(), update.price);
    }

    /// The latest price of `symbol`, if it has been seen.
    pub fn price_of(&self, symbol: &str) -> (price: Option<u64>)
        requires
            self.wf(),
        ensures
            price is Some <==> self@.contains_key(symbol@),
            price is Some ==> price->0 == self@[symbol@],
    {
        match self.prices.get(symbol) {
            Some(price) => Some(*price),
            None => None,
        }
    }

    /// How many symbols have been seen.
    pub fn len(&self) -> (n: usize)
        requires
            self.wf(),
        ensures
            n == self.symbols().len(),
    {
        self.prices.len()
    }

    /// The symbol that was the `i`-th to be seen.
    pub fn symbol_at(&self, i: usize) -> (symbol: &String)
        requires
            self.wf(),
            i < self.symbols().len(),
        ensures
            symbol@ == self.symbols()[i as int],
    {
        self.prices.symbol_at(i)
    }

    /// The latest price of the symbol that was the `i`-th to be seen.
    pub fn price_at(&self, i: usize) -> (price: u64)
        requires
            self.wf(),
            i < self.symbols().len(),
        ensures
            self@.contains_key(self.symbols()[i as int]),
            price == self@[self.symbols()[i as int]],
    {
        proof {
            self.prices.lemma_entry_at(i as int);
        }
        *self.prices.value_at(i)
    }
}

/// The last price written for a symbol wins: what was written before it
/// for that symbol leaves no trace.
pub proof fn lemma_last_write_wins(book: Map<Seq<char>, u64>, symbol: Seq<char>, first: u64, last: u64)
    ensures
        book.insert(symbol, first).insert(symbol, last) == book.insert(symbol, last),
        book.insert(symbol, first).insert(symbol, last)[symbol] == last,
{
    assert(book.insert(symbol, first).insert(symbol, last) =~= book.insert(symbol, last));
}

/// A price update drops no symbol and changes no other symbol's price.
pub proof fn lemma_update_keeps_others(
    book: Map<Seq<char>, u64>,
    symbol: Seq<char>,
    price: u64,
    other: Seq<char>,
)
    requires
        book.contains_key(other),
    ensures
        book.insert(symbol, price).contains_key(other),
        other != symbol ==> book.insert(symbol, price)[other] == book[other],
{
}

} // verus!
