//! What holds of the ledger's two operations, proved over the account's
//! mathematical content.

use vstd::prelude::*;
use crate::ledger::{book_value, position_value, AccountView, Holding};
use crate::money::{
    lemma_round_half_up_error,
    lemma_weighted_average_between,
    round_half_up,
    weighted_average,
};

verus! {

/// In a sequence without repeats, an element is found where it stands.
pub proof fn lemma_index_of_unique(symbols: Seq<Seq<char>>, i: int)
    requires
        symbols.no_duplicates(),
        0 <= i < symbols.len(),
    ensures
        symbols.contains(symbols[i]),
        symbols.index_of(symbols[i]) == i,
{
    assert(symbols.contains(symbols[i]));
    let j = symbols.index_of(symbols[i]);
    assert(0 <= j < symbols.len() && symbols[j] == symbols[i]);
}

/// A new position adds its value to the book.
pub proof fn lemma_book_value_push(positions: Seq<Holding>, holding: Holding)
    ensures
        book_value(positions.push(holding)) == book_value(positions) + position_value(holding),
{
    assert(positions.push(holding).drop_last() =~= positions);
}

/// A changed position changes the book by the difference of its values.
pub proof fn lemma_book_value_update(positions: Seq<Holding>, i: int, holding: Holding)
    requires
        0 <= i < positions.len(),
    ensures
        book_value(positions.update(i, holding)) + position_value(positions[i]) == book_value(
            positions,
        ) + position_value(holding),
    decreases positions.len(),
{
    if i == positions.len() - 1 {
        assert(positions.update(i, holding).drop_last() =~= positions.drop_last());
    } else {
        assert(positions.update(i, holding).drop_last() =~= positions.drop_last().update(
            i,
            holding,
        ));
        lemma_book_value_update(positions.drop_last(), i, holding);
    }
}

/// A dropped position takes its value out of the book.
pub proof fn lemma_book_value_remove(positions: Seq<Holding>, i: int)
    requires
        0 <= i < positions.len(),
    ensures
        book_value(positions.remove(i)) + position_value(positions[i]) == book_value(positions),
    decreases positions.len(),
{
    if i == positions.len() - 1 {
        assert(positions.remove(i) =~= positions.drop_last());
    } else {
        assert(positions.remove(i).drop_last() =~= positions.drop_last().remove(i));
        assert(positions.remove(i).last() == positions.last());
        lemma_book_value_remove(positions.drop_last(), i);
    }
}

/// A buy that is applied yields a well-formed account in which the
/// position in the symbol is the one that `holding_after_buy` names, with
/// its share count and average cost within 64 bits.
pub proof fn lemma_buy_position(account: AccountView, symbol: Seq<char>, quantity: nat, price: nat)
    requires
        account.wf(),
        account.buy_refusal(symbol, quantity, price) is None,
    ensures
        account.after_buy(symbol, quantity, price).wf(),
        account.after_buy(symbol, quantity, price).holds(symbol),
        account.after_buy(symbol, quantity, price).quantity(symbol) == account.quantity(symbol)
            + quantity,
        account.after_buy(symbol, quantity, price).average_cost(symbol) == weighted_average(
            account.average_cost(symbol),
            account.quantity(symbol),
            price,
            quantity,
        ),
        price <= u64::MAX,
{
    let after = account.after_buy(symbol, quantity, price);
    let held = account.quantity(symbol);
    let old_average = account.average_cost(symbol);
    let average = weighted_average(old_average, held, price, quantity);
    assert(price <= price * quantity) by (nonlinear_arith)
        requires
            quantity >= 1,
    ;
    lemma_weighted_average_between(old_average, held, price, quantity);
    assert(average <= u64::MAX);
    let bought = account.holding_after_buy(symbol, quantity, price);
    assert(bought.quantity == held + quantity);
    assert(bought.average_cost == average);
    if account.holds(symbol) {
        let at = account.symbols.index_of(symbol);
        assert(after.positions[at] == bought);
        lemma_index_of_unique(after.symbols, at);
    } else {
        let at = account.symbols.len() as int;
        assert forall|a: int, b: int|
            0 <= a < after.symbols.len() && 0 <= b < after.symbols.len() && a != b implies after.symbols[a]
            != after.symbols[b] by {
            if a < at {
                assert(account.symbols.contains(account.symbols[a]));
            }
            if b < at {
                assert(account.symbols.contains(account.symbols[b]));
            }
        }
        assert(after.symbols[at] == symbol);
        lemma_index_of_unique(after.symbols, at);
        assert(after.positions[at] == bought);
    }
}

/// A buy moves value from capital into the book and creates none: the
/// capital falls by exactly the cost, and the book rises by the cost, save
/// for the rounding of the average cost to a whole minor unit, which
/// moves the book by at most half a minor unit per share of the position.
/// Where the average needs no rounding, capital plus book is unchanged.
pub proof fn lemma_buy_accounting(account: AccountView, symbol: Seq<char>, quantity: nat, price: nat)
    requires
        account.wf(),
        account.buy_refusal(symbol, quantity, price) is None,
    ensures
        account.after_buy(symbol, quantity, price).capital + price * quantity == account.capital,
        account.after_buy(symbol, quantity, price).book_value() + account.quantity(symbol)
            * account.average_cost(symbol) == account.book_value() + (account.quantity(symbol)
            + quantity) * account.after_buy(symbol, quantity, price).average_cost(symbol),
        2 * account.after_buy(symbol, quantity, price).book_value() <= 2 * (account.book_value()
            + price * quantity) + (account.quantity(symbol) + quantity),
        2 * (account.book_value() + price * quantity) < 2 * account.after_buy(
            symbol,
            quantity,
            price,
        ).book_value() + (account.quantity(symbol) + quantity),
        (account.average_cost(symbol) * account.quantity(symbol) + price * quantity) % (
        account.quantity(symbol) + quantity) == 0 ==> account.after_buy(
            symbol,
            quantity,
            price,
        ).total_value() == account.total_value(),
{
    let after = account.after_buy(symbol, quantity, price);
    let held = account.quantity(symbol);
    let old_average = account.average_cost(symbol);
    let shares = held + quantity;
    let total = old_average * held + price * quantity;
    let average = round_half_up(total, shares);
    lemma_buy_position(account, symbol, quantity, price);
    assert(after.average_cost(symbol) == average);
    let bought = account.holding_after_buy(symbol, quantity, price);
    assert(position_value(bought) == shares * average);
    if account.holds(symbol) {
        let at = account.symbols.index_of(symbol);
        lemma_book_value_update(account.positions, at, bought);
        assert(position_value(account.positions[at]) == held * old_average);
    } else {
        lemma_book_value_push(account.positions, bought);
        assert(held * old_average == 0) by (nonlinear_arith)
            requires
                held == 0,
        ;
    }
    assert(after.book_value() + held * old_average == account.book_value() + shares * average);
    lemma_round_half_up_error(total, shares);
    assert(average * shares == shares * average) by (nonlinear_arith);
    assert(2 * average * shares == 2 * (shares * average)) by (nonlinear_arith);
    assert(old_average * held == held * old_average) by (nonlinear_arith);
}

/// A sale that is applied yields a well-formed account. The position
/// shrinks by the shares sold and keeps its average cost; sold in full,
/// it is gone.
pub proof fn lemma_sell_position(account: AccountView, symbol: Seq<char>, quantity: nat, price: nat)
    requires
        account.wf(),
        account.sell_refusal(symbol, quantity, price) is None,
    ensures
        account.after_sell(symbol, quantity, price).wf(),
        account.quantity(symbol) >= quantity,
        account.after_sell(symbol, quantity, price).quantity(symbol) + quantity
            == account.quantity(symbol),
        account.after_sell(symbol, quantity, price).holds(symbol) <==> account.quantity(symbol)
            > quantity,
        account.after_sell(symbol, quantity, price).holds(symbol) ==> account.after_sell(
            symbol,
            quantity,
            price,
        ).average_cost(symbol) == account.average_cost(symbol),
{
    let after = account.after_sell(symbol, quantity, price);
    let at = account.symbols.index_of(symbol);
    assert(0 <= at < account.symbols.len() && account.symbols[at] == symbol);
    if account.quantity(symbol) == quantity {
        assert forall|a: int, b: int|
            0 <= a < after.symbols.len() && 0 <= b < after.symbols.len() && a != b implies after.symbols[a]
            != after.symbols[b] by {
            let a0 = if a < at {
                a
            } else {
                a + 1
            };
            let b0 = if b < at {
                b
            } else {
                b + 1
            };
            assert(after.symbols[a] == account.symbols[a0]);
            assert(after.symbols[b] == account.symbols[b0]);
        }
        assert forall|i: int| 0 <= i < after.positions.len() implies (#[trigger] after.positions[i]).quantity
            > 0 by {
            let i0 = if i < at {
                i
            } else {
                i + 1
            };
            assert(after.positions[i] == account.positions[i0]);
        }
        if after.symbols.contains(symbol) {
            let j = after.symbols.index_of(symbol);
            let j0 = if j < at {
                j
            } else {
                j + 1
            };
            assert(account.symbols[j0] == symbol);
        }
    } else {
        lemma_index_of_unique(after.symbols, at);
    }
}

/// A sale moves value from the book into capital: the capital rises by
/// exactly the proceeds, and the book falls by exactly what the shares
/// sold had cost. Capital plus book thus changes by the gain or loss
/// that the sale realizes, and by nothing else.
pub proof fn lemma_sell_accounting(account: AccountView, symbol: Seq<char>, quantity: nat, price: nat)
    requires
        account.wf(),
        account.sell_refusal(symbol, quantity, price) is None,
    ensures
        account.after_sell(symbol, quantity, price).capital == account.capital + price
            * quantity,
        account.after_sell(symbol, quantity, price).book_value() + quantity
            * account.average_cost(symbol) == account.book_value(),
        account.after_sell(symbol, quantity, price).total_value() + quantity
            * account.average_cost(symbol) == account.total_value() + price * quantity,
{
    let after = account.after_sell(symbol, quantity, price);
    let at = account.symbols.index_of(symbol);
    assert(0 <= at < account.symbols.len() && account.symbols[at] == symbol);
    let held = account.quantity(symbol);
    let average = account.average_cost(symbol);
    assert(position_value(account.positions[at]) == held * average);
    if held == quantity {
        lemma_book_value_remove(account.positions, at);
    } else {
        let left = Holding {
            quantity: (held - quantity) as u64,
            average_cost: account.holding(symbol).average_cost,
        };
        lemma_book_value_update(account.positions, at, left);
        assert(position_value(left) == (held - quantity) * average);
        assert((held - quantity) * average + quantity * average == held * average)
            by (nonlinear_arith)
            requires
                held >= quantity,
        ;
    }
}

/// Two buys into a symbol that was not held leave the quantity-weighted
/// mean of the two fills as the average cost.
pub proof fn lemma_two_buys_average(
    account: AccountView,
    symbol: Seq<char>,
    first_quantity: nat,
    first_price: nat,
    second_quantity: nat,
    second_price: nat,
)
    requires
        account.wf(),
        !account.holds(symbol),
        account.buy_refusal(symbol, first_quantity, first_price) is None,
        account.after_buy(symbol, first_quantity, first_price).buy_refusal(
            symbol,
            second_quantity,
            second_price,
        ) is None,
    ensures
        account.after_buy(symbol, first_quantity, first_price).average_cost(symbol)
            == first_price,
        account.after_buy(symbol, first_quantity, first_price).after_buy(
            symbol,
            second_quantity,
            second_price,
        ).quantity(symbol) == first_quantity + second_quantity,
        account.after_buy(symbol, first_quantity, first_price).after_buy(
            symbol,
            second_quantity,
            second_price,
        ).average_cost(symbol) == round_half_up(
            first_price * first_quantity + second_price * second_quantity,
            first_quantity + second_quantity,
        ),
{
    let first = account.after_buy(symbol, first_quantity, first_price);
    lemma_buy_position(account, symbol, first_quantity, first_price);
    lemma_weighted_average_between(0, 0, first_price, first_quantity);
    lemma_buy_position(first, symbol, second_quantity, second_price);
}

/// An operation on one symbol leaves every other position as it was.
pub proof fn lemma_other_positions_untouched(
    account: AccountView,
    symbol: Seq<char>,
    quantity: nat,
    price: nat,
    other: Seq<char>,
)
    requires
        account.wf(),
        other != symbol,
    ensures
        account.buy_refusal(symbol, quantity, price) is None ==> account.after_buy(
            symbol,
            quantity,
            price,
        ).holds(other) == account.holds(other) && account.after_buy(
            symbol,
            quantity,
            price,
        ).quantity(other) == account.quantity(other) && account.after_buy(
            symbol,
            quantity,
            price,
        ).average_cost(other) == account.average_cost(other),
        account.sell_refusal(symbol, quantity, price) is None ==> account.after_sell(
            symbol,
            quantity,
            price,
        ).holds(other) == account.holds(other) && account.after_sell(
            symbol,
            quantity,
            price,
        ).quantity(other) == account.quantity(other) && account.after_sell(
            symbol,
            quantity,
            price,
        ).average_cost(other) == account.average_cost(other),
{
    if account.buy_refusal(symbol, quantity, price) is None {
        let after = account.after_buy(symbol, quantity, price);
        lemma_buy_position(account, symbol, quantity, price);
        if account.holds(other) {
            let at = account.symbols.index_of(other);
            assert(after.symbols[at] == other);
            lemma_index_of_unique(after.symbols, at);
        } else if after.holds(other) {
            let at = after.symbols.index_of(other);
            if at < account.symbols.len() {
                assert(account.symbols[at] == other);
            }
        }
    }
    if account.sell_refusal(symbol, quantity, price) is None {
        let after = account.after_sell(symbol, quantity, price);
        lemma_sell_position(account, symbol, quantity, price);
        let gone = account.symbols.index_of(symbol);
        assert(0 <= gone < account.symbols.len() && account.symbols[gone] == symbol);
        if account.quantity(symbol) == quantity {
            if account.holds(other) {
                let at = account.symbols.index_of(other);
                let now = if at < gone {
                    at
                } else {
                    at - 1
                };
                assert(after.symbols[now] == other);
                lemma_index_of_unique(after.symbols, now);
            } else if after.holds(other) {
                let now = after.symbols.index_of(other);
                let at = if now < gone {
                    now
                } else {
                    now + 1
                };
                assert(account.symbols[at] == other);
            }
        } else {
            if account.holds(other) {
                let at = account.symbols.index_of(other);
                lemma_index_of_unique(after.symbols, at);
            }
        }
    }
}

/// One operation on the ledger.
pub enum LedgerOp {
    Buy { symbol: Seq<char>, quantity: nat, price: nat },
    Sell { symbol: Seq<char>, quantity: nat, price: nat },
}

impl LedgerOp {
    /// Whether the ledger applies the operation to `account`.
    pub open spec fn admitted(self, account: AccountView) -> bool {
        match self {
            LedgerOp::Buy { symbol, quantity, price } => account.buy_refusal(
                symbol,
                quantity,
                price,
            ) is None,
            LedgerOp::Sell { symbol, quantity, price } => account.sell_refusal(
                symbol,
                quantity,
                price,
            ) is None,
        }
    }

    /// The account after the operation: changed where it is admitted, as
    /// it was where it is refused.
    pub open spec fn apply(self, account: AccountView) -> AccountView {
        if !self.admitted(account) {
            account
        } else {
            match self {
                LedgerOp::Buy { symbol, quantity, price } => account.after_buy(
                    symbol,
                    quantity,
                    price,
                ),
                LedgerOp::Sell { symbol, quantity, price } => account.after_sell(
                    symbol,
                    quantity,
                    price,
                ),
            }
        }
    }

    /// The cash that the operation brings the client: the proceeds of a
    /// sale, the cost of a buy taken negative, and nothing where the
    /// operation is refused.
    pub open spec fn cash_flow(self, account: AccountView) -> int {
        if !self.admitted(account) {
            0
        } else {
            match self {
                LedgerOp::Buy { symbol, quantity, price } => -(price * quantity),
                LedgerOp::Sell { symbol, quantity, price } => (price * quantity) as int,
            }
        }
    }

    /// What the operation adds to the book: what a buy's shares cost after
    /// rounding of the average, what a sale's shares had cost taken
    /// negative, and nothing where the operation is refused.
    pub open spec fn book_flow(self, account: AccountView) -> int {
        if !self.admitted(account) {
            0
        } else {
            match self {
                LedgerOp::Buy { symbol, quantity, price } => (account.quantity(symbol) + quantity)
                    * weighted_average(
                    account.average_cost(symbol),
                    account.quantity(symbol),
                    price,
                    quantity,
                ) - account.quantity(symbol) * account.average_cost(symbol),
                LedgerOp::Sell { symbol, quantity, price } => -(quantity * account.average_cost(
                    symbol,
                )),
            }
        }
    }
}

/// The account after the operations of `ops`, one after the other.
pub open spec fn run(account: AccountView, ops: Seq<LedgerOp>) -> AccountView
    decreases ops.len(),
{
    if ops.len() == 0 {
        account
    } else {
        ops.last().apply(run(account, ops.drop_last()))
    }
}

/// The cash that the operations of `ops` bring the client in all.
pub open spec fn total_cash_flow(account: AccountView, ops: Seq<LedgerOp>) -> int
    decreases ops.len(),
{
    if ops.len() == 0 {
        0
    } else {
        total_cash_flow(account, ops.drop_last()) + ops.last().cash_flow(
            run(account, ops.drop_last()),
        )
    }
}

/// What the operations of `ops` add to the book in all.
pub open spec fn total_book_flow(account: AccountView, ops: Seq<LedgerOp>) -> int
    decreases ops.len(),
{
    if ops.len() == 0 {
        0
    } else {
        total_book_flow(account, ops.drop_last()) + ops.last().book_flow(
            run(account, ops.drop_last()),
        )
    }
}

/// One operation keeps the account well formed, moves the capital by
/// exactly its cash flow and the book by exactly its book flow.
pub proof fn lemma_op_accounting(account: AccountView, op: LedgerOp)
    requires
        account.wf(),
    ensures
        op.apply(account).wf(),
        op.apply(account).client_id == account.client_id,
        op.apply(account).capital == account.capital + op.cash_flow(account),
        op.apply(account).book_value() == account.book_value() + op.book_flow(account),
{
    if op.admitted(account) {
        match op {
            LedgerOp::Buy { symbol, quantity, price } => {
                lemma_buy_position(account, symbol, quantity, price);
                lemma_buy_accounting(account, symbol, quantity, price);
            },
            LedgerOp::Sell { symbol, quantity, price } => {
                lemma_sell_position(account, symbol, quantity, price);
                lemma_sell_accounting(account, symbol, quantity, price);
            },
        }
    }
}

/// Over any run of buys and sales, the capital changes by exactly the
/// cash that the operations bring, and the book by exactly what they add
/// to it: the ledger creates no value and destroys none. The account
/// stays well formed throughout, so no position ever holds a negative
/// or zero number of shares.
pub proof fn lemma_run_accounting(account: AccountView, ops: Seq<LedgerOp>)
    requires
        account.wf(),
    ensures
        run(account, ops).wf(),
        run(account, ops).client_id == account.client_id,
        run(account, ops).capital == account.capital + total_cash_flow(account, ops),
        run(account, ops).book_value() == account.book_value() + total_book_flow(account, ops),
        run(account, ops).total_value() == account.total_value() + total_cash_flow(account, ops)
            + total_book_flow(account, ops),
    decreases ops.len(),
{
    if ops.len() > 0 {
        lemma_run_accounting(account, ops.drop_last());
        lemma_op_accounting(run(account, ops.drop_last()), ops.last());
    }
}

/// A buy's cash flow and book flow cancel, save for the rounding of the
/// average cost: together they move capital plus book by at most half a
/// minor unit per share of the position. A sale's flows add up to the
/// gain or loss that it realizes: the shares sold, times the difference
/// between the price and their average cost.
pub proof fn lemma_op_creates_no_value(account: AccountView, op: LedgerOp)
    requires
        account.wf(),
        op.admitted(account),
    ensures
        match op {
            LedgerOp::Buy { symbol, quantity, price } => {
                &&& 2 * (op.cash_flow(account) + op.book_flow(account)) <= account.quantity(symbol)
                    + quantity
                &&& -(account.quantity(symbol) + quantity) < 2 * (op.cash_flow(account)
                    + op.book_flow(account))
            },
            LedgerOp::Sell { symbol, quantity, price } => op.cash_flow(account) + op.book_flow(
                account,
            ) == quantity * (price - account.average_cost(symbol)),
        },
{
    match op {
        LedgerOp::Buy { symbol, quantity, price } => {
            lemma_buy_position(account, symbol, quantity, price);
            lemma_buy_accounting(account, symbol, quantity, price);
        },
        LedgerOp::Sell { symbol, quantity, price } => {
            let average = account.average_cost(symbol);
            assert(price * quantity - quantity * average == quantity * (price - average))
                by (nonlinear_arith);
        },
    }
}

} // verus!
