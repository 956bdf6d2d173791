//! How many shares of each symbol a client holds.

use vstd::prelude::*;
use crate::symbol_map::SymbolMap;

verus! {

/// Share counts per symbol.
pub struct Portfolio {
    holdings: SymbolMap<u64>,
}

/// Whether a signed change can be applied to `held` shares: a purchase
/// always can, a sale only of shares that are held.
pub open spec fn change_applies(held: nat, quantity_change: int) -> bool {
    quantity_change >= 0 || held >= -quantity_change
}

/// The share count that results from `held` shares and a signed change.
/// A sale of more than is held is not applied: the count stays.
pub open spec fn quantity_after(held: nat, quantity_change: int) -> nat {
    if change_applies(held, quantity_change) {
        (held + quantity_change) as nat
    } else {
        held
    }
}

impl View for Portfolio {
    type V = Map<Seq<char>, u64>;

    closed spec fn view(&self) -> Map<Seq<char>, u64> {
        self.holdings@
    }
}

impl Portfolio {
    pub closed spec fn wf(&self) -> bool {
        self.holdings.wf()
    }

    /// The shares held of `symbol`: none where the symbol is unknown.
    pub open spec fn quantity(&self, symbol: Seq<char>) -> nat {
        if self@.contains_key(symbol) {
            self@[symbol] as nat
        } else {
            0
        }
    }

    /// A portfolio that holds nothing.
    pub fn new() -> (portfolio: Self)
        ensures
            portfolio.wf(),
            portfolio@ == Map::<Seq<char>, u64>::empty(),
    {
        Portfolio { holdings: SymbolMap::new() }
    }

    /// The shares held of `stock_symbol`.
    pub fn get_quantity(&self, stock_symbol: &str) -> (held: u64)
        requires
            self.wf(),
        ensures
            held == self.quantity(stock_symbol@),
    {
        match self.holdings.get(stock_symbol) {
            Some(held) => *held,
            None => 0,
        }
    }

    /// Whether `quantity` shares of `stock_symbol` can be sold.
    pub fn can_sell(&self, stock_symbol: &str, quantity: u64) -> (enough: bool)
        requires
            self.wf(),
        ensures
            enough == (self.quantity(stock_symbol@) >= quantity),
    {
        self.get_quantity(stock_symbol) >= quantity
    }

    /// Adds `quantity_change` shares of `stock_symbol` (a purchase), or
    /// takes `-quantity_change` away (a sale), and says whether it did. A
    /// sale of more shares than are held is not applied: the result is
    /// `false` and the portfolio stays as it was. A change that is
    /// applied leaves the symbol known, also where no share is left.
    pub fn update_holdings(&mut self, stock_symbol: &str, quantity_change: i64) -> (applied: bool)
        requires
            old(self).wf(),
            old(self).quantity(stock_symbol@) + quantity_change <= u64::MAX,
        ensures
            final(self).wf(),
            applied == change_applies(old(self).quantity(stock_symbol@), quantity_change as int),
            applied ==> final(self)@ == old(self)@.insert(
                stock_symbol@,
                (old(self).quantity(stock_symbol@) + quantity_change) as u64,
            ),
            !applied ==> final(self)@ == old(self)@,
            final(self).quantity(stock_symbol@) == quantity_after(
                old(self).quantity(stock_symbol@),
                quantity_change as int,
            ),
    {
        let held: u64 = self.get_quantity(stock_symbol);
        let now: u64 = if quantity_change < 0 {
            let sold: u64 = ((-(quantity_change + 1)) as u64) + 1;
            if held < sold {
                return false;
            }
            held - sold
        } else {
            held + (quantity_change as u64)
        };
        self.holdings.insert(stock_symbol, now);
        true
    }

    /// Forgets `stock_symbol`.
    pub fn remove_stock(&mut self, stock_symbol: &str)
        requires
            old(self).wf(),
        ensures
            final(self).wf(),
            final(self)@ == old(self)@.remove(stock_symbol@),
            final(self).quantity(stock_symbol@) == 0,
    {
        self.holdings.remove(stock_symbol);
    }
}

} // verus!
