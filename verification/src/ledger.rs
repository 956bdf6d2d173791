//! A client's capital and holdings, and the two operations that change
//! them: a buy and a sell.

use vstd::prelude::*;
use crate::money::{average_after_buy, order_cost, weighted_average};
use crate::symbol_map::SymbolMap;

verus! {

/// A position in one symbol: how many shares, and what each cost on
/// average, in minor units. A position never holds zero shares: the
/// ledger drops it instead.
#[derive(Clone, Copy, Debug, PartialEq, Eq, Structural)]
pub struct Holding {
    pub quantity: u64,
    pub average_cost: u64,
}

/// Why the ledger refused an operation. A refused operation changes
/// nothing.
#[derive(Clone, Copy, Debug, PartialEq, Eq, Structural)]
pub enum LedgerError {
    /// The operation names no shares.
    ZeroQuantity,
    /// The purchase costs more than the client's capital.
    InsufficientCapital,
    /// The client holds no shares of the symbol.
    NoPosition,
    /// The client holds fewer shares than the sale names.
    InsufficientShares,
    /// The result does not fit in 64 bits.
    Overflow,
}

/// What a position is worth at cost.
pub open spec fn position_value(holding: Holding) -> nat {
    (holding.quantity * holding.average_cost) as nat
}

/// The sum of what each position is worth at cost.
pub open spec fn book_value(positions: Seq<Holding>) -> nat
    decreases positions.len(),
{
    if positions.len() == 0 {
        0
    } else {
        book_value(positions.drop_last()) + position_value(positions.last())
    }
}

/// The mathematical content of a [`ClientAccount`]: its capital, its
/// counts, and its positions in the order in which they were opened.
pub struct AccountView {
    pub client_id: u64,
    pub capital: nat,
    pub symbols: Seq<Seq<char>>,
    pub positions: Seq<Holding>,
    pub buy_count: nat,
    pub sell_count: nat,
}

impl AccountView {
    /// The account of a client that starts with `capital` and has not
    /// traded yet.
    pub open spec fn opening(client_id: u64, capital: nat) -> AccountView {
        AccountView {
            client_id,
            capital,
            symbols: Seq::empty(),
            positions: Seq::empty(),
            buy_count: 0,
            sell_count: 0,
        }
    }

    /// Each symbol has one position and occurs once, no position is
    /// empty, and capital and counts fit in 64 bits.
    pub open spec fn wf(self) -> bool {
        &&& self.capital <= u64::MAX
        &&& self.buy_count <= u64::MAX
        &&& self.sell_count <= u64::MAX
        &&& self.symbols.len() == self.positions.len()
        &&& self.symbols.no_duplicates()
        &&& forall|i: int| 0 <= i < self.positions.len() ==> (#[trigger] self.positions[i]).quantity > 0
    }

    /// Whether the client has a position in `symbol`.
    pub open spec fn holds(self, symbol: Seq<char>) -> bool {
        self.symbols.contains(symbol)
    }

    /// The client's position in `symbol`, where there is one.
    pub open spec fn holding(self, symbol: Seq<char>) -> Holding
        recommends
            self.holds(symbol),
    {
        self.positions[self.symbols.index_of(symbol)]
    }

    /// The shares held of `symbol`: none where there is no position.
    pub open spec fn quantity(self, symbol: Seq<char>) -> nat {
        if self.holds(symbol) {
            self.holding(symbol).quantity as nat
        } else {
            0
        }
    }

    /// The average cost of the position in `symbol`. Where there is no
    /// position the value has no meaning; it is zero so that it carries
    /// no weight in an average.
    pub open spec fn average_cost(self, symbol: Seq<char>) -> nat {
        if self.holds(symbol) {
            self.holding(symbol).average_cost as nat
        } else {
            0
        }
    }

    /// What all positions are worth at cost.
    pub open spec fn book_value(self) -> nat {
        book_value(self.positions)
    }

    /// Capital plus what the positions are worth at cost.
    pub open spec fn total_value(self) -> nat {
        self.capital + self.book_value()
    }

    /// Why a buy of `quantity` shares of `symbol` at `price` is refused,
    /// or `None` where it is applied.
    pub open spec fn buy_refusal(self, symbol: Seq<char>, quantity: nat, price: nat) -> Option<
        LedgerError,
    > {
        if quantity == 0 {
            Some(LedgerError::ZeroQuantity)
        } else if price * quantity > self.capital {
            Some(LedgerError::InsufficientCapital)
        } else if self.quantity(symbol) + quantity > u64::MAX || self.buy_count >= u64::MAX {
            Some(LedgerError::Overflow)
        } else {
            None
        }
    }

    /// The position in `symbol` after `quantity` shares at `price` joined
    /// it.
    pub open spec fn holding_after_buy(self, symbol: Seq<char>, quantity: nat, price: nat) -> Holding {
        Holding {
            quantity: (self.quantity(symbol) + quantity) as u64,
            average_cost: weighted_average(
                self.average_cost(symbol),
                self.quantity(symbol),
                price,
                quantity,
            ) as u64,
        }
    }

    /// The account after a buy that is not refused.
    pub open spec fn after_buy(self, symbol: Seq<char>, quantity: nat, price: nat) -> AccountView {
        let bought = self.holding_after_buy(symbol, quantity, price);
        AccountView {
            client_id: self.client_id,
            capital: (self.capital - price * quantity) as nat,
            symbols: if self.holds(symbol) {
                self.symbols
            } else {
                self.symbols.push(symbol)
            },
            positions: if self.holds(symbol) {
                self.positions.update(self.symbols.index_of(symbol), bought)
            } else {
                self.positions.push(bought)
            },
            buy_count: self.buy_count + 1,
            sell_count: self.sell_count,
        }
    }

    /// Why a sale of `quantity` shares of `symbol` at `price` is refused,
    /// or `None` where it is applied.
    pub open spec fn sell_refusal(self, symbol: Seq<char>, quantity: nat, price: nat) -> Option<
        LedgerError,
    > {
        if quantity == 0 {
            Some(LedgerError::ZeroQuantity)
        } else if !self.holds(symbol) {
            Some(LedgerError::NoPosition)
        } else if self.quantity(symbol) < quantity {
            Some(LedgerError::InsufficientShares)
        } else if self.capital + price * quantity > u64::MAX || self.sell_count >= u64::MAX {
            Some(LedgerError::Overflow)
        } else {
            None
        }
    }

    /// The account after a sale that is not refused. A position sold in
    /// full is dropped; one sold in part keeps its average cost.
    pub open spec fn after_sell(self, symbol: Seq<char>, quantity: nat, price: nat) -> AccountView {
        let at = self.symbols.index_of(symbol);
        let left = Holding {
            quantity: (self.quantity(symbol) - quantity) as u64,
            average_cost: self.holding(symbol).average_cost,
        };
        AccountView {
            client_id: self.client_id,
            capital: self.capital + price * quantity,
            symbols: if self.quantity(symbol) == quantity {
                self.symbols.remove(at)
            } else {
                self.symbols
            },
            positions: if self.quantity(symbol) == quantity {
                self.positions.remove(at)
            } else {
                self.positions.update(at, left)
            },
            buy_count: self.buy_count,
            sell_count: self.sell_count + 1,
        }
    }
}

/// One client's capital, holdings and transaction counts.
pub struct ClientAccount {
    client_id: u64,
    capital: u64,
    holdings: SymbolMap<Holding>,
    buy_count: u64,
    sell_count: u64,
}

impl View for ClientAccount {
    type V = AccountView;

    closed spec fn view(&self) -> AccountView {
        AccountView {
            client_id: self.client_id,
            capital: self.capital as nat,
            symbols: self.holdings.symbols(),
            positions: self.holdings.entries(),
            buy_count: self.buy_count as nat,
            sell_count: self.sell_count as nat,
        }
    }
}

impl ClientAccount {
    /// Holds of every account that this module hands out.
    pub closed spec fn wf(&self) -> bool {
        &&& self.holdings.wf()
        &&& forall|i: int|
            0 <= i < self.holdings.entries().len() ==> (#[trigger] self.holdings.entries()[i]).quantity
                > 0
    }

    /// A well-formed account has a well-formed content.
    pub proof fn lemma_view_wf(&self)
        requires
            self.wf(),
        ensures
            self@.wf(),
    {
        self.holdings.lemma_contains(Seq::empty());
    }

    /// An account with `capital` and no holdings.
    pub fn new(client_id: u64, capital: u64) -> (account: Self)
        ensures
            account.wf(),
            account@ == AccountView::opening(client_id, capital as nat),
    {
        ClientAccount { client_id, capital, holdings: SymbolMap::new(), buy_count: 0, sell_count: 0 }
    }

    /// An account as it was recorded earlier, without its holdings: those
    /// are put back one by one with `restore_holding`.
    pub fn restore(client_id: u64, capital: u64, buy_count: u64, sell_count: u64) -> (account: Self)
        ensures
            account.wf(),
            account@ == (AccountView {
                buy_count: buy_count as nat,
                sell_count: sell_count as nat,
                ..AccountView::opening(client_id, capital as nat)
            }),
    {
        ClientAccount { client_id, capital, holdings: SymbolMap::new(), buy_count, sell_count }
    }

    /// Puts back a recorded position as the account's last one. A
    /// position without shares, or in a symbol that the account already
    /// holds, is not taken, and the account stays as it was.
    pub fn restore_holding(&mut self, symbol: &str, holding: Holding) -> (taken: bool)
        requires
            old(self).wf(),
        ensures
            final(self).wf(),
            taken == (holding.quantity > 0 && !old(self)@.holds(symbol@)),
            taken ==> final(self)@ == (AccountView {
                symbols: old(self)@.symbols.push(symbol@),
                positions: old(self)@.positions.push(holding),
                ..old(self)@
            }),
            !taken ==> final(self)@ == old(self)@,
    {
        proof {
            self.holdings.lemma_contains(symbol@);
        }
        if holding.quantity == 0 {
            return false;
        }
        match self.holdings.position(symbol) {
            Some(_) => false,
            None => {
                self.holdings.insert(symbol, holding);
                true
            },
        }
    }

    /// The client that the account belongs to.
    pub fn client_id(&self) -> (id: u64)
        ensures
            id == self@.client_id,
    {
        self.client_id
    }

    /// The client's capital, in minor units.
    pub fn capital(&self) -> (capital: u64)
        ensures
            capital == self@.capital,
    {
        self.capital
    }

    /// How many buys have been applied.
    pub fn buy_count(&self) -> (count: u64)
        ensures
            count == self@.buy_count,
    {
        self.buy_count
    }

    /// How many sales have been applied.
    pub fn sell_count(&self) -> (count: u64)
        ensures
            count == self@.sell_count,
    {
        self.sell_count
    }

    /// The client's position in `symbol`, if there is one.
    pub fn holding_of(&self, symbol: &str) -> (holding: Option<Holding>)
        requires
            self.wf(),
        ensures
            holding is Some <==> self@.holds(symbol@),
            holding is Some ==> holding->0 == self@.holding(symbol@),
            holding is Some ==> holding->0.quantity > 0,
    {
        proof {
            self.holdings.lemma_contains(symbol@);
        }
        match self.holdings.get(symbol) {
            Some(holding) => Some(*holding),
            None => None,
        }
    }

    /// The shares held of `symbol`.
    pub fn quantity_of(&self, symbol: &str) -> (held: u64)
        requires
            self.wf(),
        ensures
            held == self@.quantity(symbol@),
    {
        match self.holding_of(symbol) {
            Some(holding) => holding.quantity,
            None => 0,
        }
    }

    /// How many positions the client has.
    pub fn holdings_len(&self) -> (n: usize)
        requires
            self.wf(),
        ensures
            n == self@.symbols.len(),
            n == self@.positions.len(),
    {
        self.holdings.len()
    }

    /// The symbol of the `i`-th position.
    pub fn symbol_at(&self, i: usize) -> (symbol: &String)
        requires
            self.wf(),
            i < self@.symbols.len(),
        ensures
            symbol@ == self@.symbols[i as int],
    {
        self.holdings.symbol_at(i)
    }

    /// The `i`-th position.
    pub fn holding_at(&self, i: usize) -> (holding: Holding)
        requires
            self.wf(),
            i < self@.symbols.len(),
        ensures
            holding == self@.positions[i as int],
            holding.quantity > 0,
    {
        proof {
            self.holdings.lemma_contains(Seq::empty());
        }
        *self.holdings.value_at(i)
    }

    /// Applies a completed buy of `quantity` shares of `symbol` at `price`
    /// each: the position grows and takes the weighted average cost, the
    /// capital falls by the cost, and the buy is counted. A buy that the
    /// capital does not cover is refused, and so is one that names no
    /// shares or whose result does not fit; a refused buy changes nothing.
    pub fn apply_buy(&mut self, symbol: &str, quantity: u64, price: u64) -> (result: Result<
        (),
        LedgerError,
    >)
        requires
            old(self).wf(),
        ensures
            final(self).wf(),
            match old(self)@.buy_refusal(symbol@, quantity as nat, price as nat) {
                Some(error) => result == Err::<(), LedgerError>(error) && final(self)@ == old(
                    self,
                )@,
                None => result is Ok && final(self)@ == old(self)@.after_buy(
                    symbol@,
                    quantity as nat,
                    price as nat,
                ),
            },
    {
        if quantity == 0 {
            return Err(LedgerError::ZeroQuantity);
        }
        let cost: u128 = order_cost(price, quantity);
        if cost > self.capital as u128 {
            return Err(LedgerError::InsufficientCapital);
        }
        let (held, old_average): (u64, u64) = match self.holding_of(symbol) {
            Some(holding) => (holding.quantity, holding.average_cost),
            None => (0, 0),
        };
        if held > u64::MAX - quantity || self.buy_count == u64::MAX {
            return Err(LedgerError::Overflow);
        }
        let average: u64 = average_after_buy(old_average, held, price, quantity);
        let ghost before = *self;
        proof {
            before.holdings.lemma_contains(symbol@);
        }
        self.holdings.insert(symbol, Holding { quantity: held + quantity, average_cost: average });
        self.capital = self.capital - (cost as u64);
        self.buy_count = self.buy_count + 1;
        proof {
            assert(self@.symbols == before@.after_buy(symbol@, quantity as nat, price as nat).symbols);
            assert(self@.positions == before@.after_buy(
                symbol@,
                quantity as nat,
                price as nat,
            ).positions);
        }
        Ok(())
    }

    /// Applies a completed sale of `quantity` shares of `symbol` at
    /// `price` each: the position shrinks and keeps its average cost, or
    /// is dropped where nothing is left; the capital rises by the
    /// proceeds, and the sale is counted. A sale of more shares than are
    /// held is refused, and so is one that names no shares or whose result
    /// does not fit; a refused sale changes nothing.
    pub fn apply_sell(&mut self, symbol: &str, quantity: u64, price: u64) -> (result: Result<
        (),
        LedgerError,
    >)
        requires
            old(self).wf(),
        ensures
            final(self).wf(),
            match old(self)@.sell_refusal(symbol@, quantity as nat, price as nat) {
                Some(error) => result == Err::<(), LedgerError>(error) && final(self)@ == old(
                    self,
                )@,
                None => result is Ok && final(self)@ == old(self)@.after_sell(
                    symbol@,
                    quantity as nat,
                    price as nat,
                ),
            },
    {
        if quantity == 0 {
            return Err(LedgerError::ZeroQuantity);
        }
        let holding: Holding = match self.holding_of(symbol) {
            Some(holding) => holding,
            None => {
                return Err(LedgerError::NoPosition);
            },
        };
        if holding.quantity < quantity {
            return Err(LedgerError::InsufficientShares);
        }
        let proceeds: u128 = order_cost(price, quantity);
        if proceeds > (u64::MAX - self.capital) as u128 || self.sell_count == u64::MAX {
            return Err(LedgerError::Overflow);
        }
        let ghost before = *self;
        proof {
            before.holdings.lemma_contains(symbol@);
        }
        if holding.quantity == quantity {
            self.holdings.remove(symbol);
        } else {
            self.holdings.insert(
                symbol,
                Holding { quantity: holding.quantity - quantity, average_cost: holding.average_cost },
            );
        }
        self.capital = self.capital + (proceeds as u64);
        self.sell_count = self.sell_count + 1;
        proof {
            assert(self@.symbols == before@.after_sell(symbol@, quantity as nat, price as nat).symbols);
            assert(self@.positions == before@.after_sell(
                symbol@,
                quantity as nat,
                price as nat,
            ).positions);
        }
        Ok(())
    }
}

} // verus!
