//! What a client's account amounts to: what is invested, what it is
//! worth in all, and the profit or loss against the starting capital.

use vstd::prelude::*;
use crate::ledger::{book_value, position_value, AccountView, ClientAccount, Holding};
use crate::money::order_cost;

verus! {

/// The figures of one client's report, in minor units.
#[derive(Clone, Copy, Debug, PartialEq, Eq, Structural)]
pub struct ClientPerformance {
    pub client_id: u64,
    /// What the positions are worth at cost.
    pub total_investment: u128,
    pub remaining_capital: u64,
    /// Buys and sales together.
    pub total_transactions: u128,
    /// Investment plus capital.
    pub total_value: u128,
    /// Total value less the starting capital.
    pub pnl: i128,
}

/// The largest total value that a report can hold.
pub open spec fn report_limit() -> nat {
    i128::MAX as nat
}

/// The report of `account` for a client that started with
/// `initial_capital`.
pub open spec fn performance_of(account: AccountView, initial_capital: nat) -> ClientPerformance {
    ClientPerformance {
        client_id: account.client_id,
        total_investment: account.book_value() as u128,
        remaining_capital: account.capital as u64,
        total_transactions: (account.buy_count + account.sell_count) as u128,
        total_value: account.total_value() as u128,
        pnl: (account.total_value() - initial_capital) as i128,
    }
}

/// The positions up to some point are worth no more than all of them.
pub proof fn lemma_book_value_prefix(positions: Seq<Holding>, i: int)
    requires
        0 <= i <= positions.len(),
    ensures
        book_value(positions.take(i)) <= book_value(positions),
    decreases positions.len() - i,
{
    if i == positions.len() {
        assert(positions.take(i) =~= positions);
    } else {
        assert(positions.take(i + 1).drop_last() =~= positions.take(i));
        lemma_book_value_prefix(positions, i + 1);
    }
}

/// What the positions of `account` are worth at cost, where that is
/// within the limit of a report.
pub fn invested(account: &ClientAccount) -> (total: Option<u128>)
    requires
        account.wf(),
    ensures
        account@.book_value() <= report_limit() ==> total == Some(account@.book_value() as u128),
        account@.book_value() > report_limit() ==> total is None,
{
    let limit: u128 = i128::MAX as u128;
    let mut total: u128 = 0;
    let mut i: usize = 0;
    while i < account.holdings_len()
        invariant
            account.wf(),
            limit == i128::MAX as u128,
            i <= account@.positions.len(),
            total == book_value(account@.positions.take(i as int)),
            total <= limit,
        decreases account@.positions.len() - i,
    {
        let holding: Holding = account.holding_at(i);
        let value: u128 = order_cost(holding.average_cost, holding.quantity);
        proof {
            assert(account@.positions.take(i + 1).drop_last() =~= account@.positions.take(i as int));
            assert(account@.positions.take(i + 1).last() == holding);
            assert(position_value(holding) == value) by (nonlinear_arith)
                requires
                    value == holding.average_cost * holding.quantity,
                    position_value(holding) == holding.quantity * holding.average_cost,
            ;
            lemma_book_value_prefix(account@.positions, i + 1);
        }
        if value > limit - total {
            return None;
        }
        total = total + value;
        i += 1;
    }
    proof {
        assert(account@.positions.take(i as int) =~= account@.positions);
    }
    Some(total)
}

/// The report of `account` for a client that started with
/// `initial_capital`. There is none where the total value is beyond the
/// limit of a report.
pub fn client_performance(account: &ClientAccount, initial_capital: u64) -> (report: Option<
    ClientPerformance,
>)
    requires
        account.wf(),
    ensures
        account@.total_value() <= report_limit() ==> report == Some(
            performance_of(account@, initial_capital as nat),
        ),
        account@.total_value() > report_limit() ==> report is None,
{
    proof {
        account.lemma_view_wf();
    }
    let limit: u128 = i128::MAX as u128;
    let total_investment: u128 = match invested(account) {
        Some(total) => total,
        None => {
            return None;
        },
    };
    let capital: u64 = account.capital();
    if capital as u128 > limit - total_investment {
        return None;
    }
    let total_value: u128 = total_investment + capital as u128;
    Some(
        ClientPerformance {
            client_id: account.client_id(),
            total_investment,
            remaining_capital: capital,
            total_transactions: account.buy_count() as u128 + account.sell_count() as u128,
            total_value,
            pnl: total_value as i128 - initial_capital as i128,
        },
    )
}

/// A client that has not traded is worth its capital, and has neither
/// gained nor lost against it.
pub proof fn lemma_opening_performance(client_id: u64, capital: u64)
    ensures
        performance_of(AccountView::opening(client_id, capital as nat), capital as nat) == (
        ClientPerformance {
            client_id,
            total_investment: 0,
            remaining_capital: capital,
            total_transactions: 0,
            total_value: capital as u128,
            pnl: 0,
        }),
{
}

} // verus!
