//! The accounts of all clients as one list, as a record of the ledger
//! holds them, and the update of one client's portfolio in it.

use vstd::prelude::*;
use crate::ledger::{AccountView, ClientAccount, LedgerError};
use crate::ledger_laws::{
    lemma_buy_accounting,
    lemma_buy_position,
    lemma_sell_accounting,
    lemma_sell_position,
    lemma_two_buys_average,
};
use crate::money::round_half_up;

verus! {

/// Why a portfolio update was not applied. An update that is not applied
/// changes nothing.
#[derive(Clone, Copy, Debug, PartialEq, Eq, Structural)]
pub enum UpdateError {
    /// No account in the list belongs to the client.
    ClientNotFound,
    /// The client's ledger refused the operation.
    Refused(LedgerError),
}

/// The contents of a list of accounts.
pub open spec fn account_views(accounts: Seq<ClientAccount>) -> Seq<AccountView> {
    Seq::new(accounts.len(), |i: int| accounts[i]@)
}

/// Whether every account of the list is well formed.
pub open spec fn all_wf(accounts: Seq<ClientAccount>) -> bool {
    forall|i: int| 0 <= i < accounts.len() ==> (#[trigger] accounts[i]).wf()
}

/// Whether some account of the list belongs to the client.
pub open spec fn has_client(accounts: Seq<AccountView>, client_id: u64) -> bool {
    exists|i: int| 0 <= i < accounts.len() && (#[trigger] accounts[i]).client_id == client_id
}

/// Whether the account at position `i` is the first of the list that
/// belongs to the client.
pub open spec fn is_first_of_client(accounts: Seq<AccountView>, client_id: u64, i: int) -> bool {
    &&& 0 <= i < accounts.len()
    &&& accounts[i].client_id == client_id
    &&& forall|j: int| 0 <= j < i ==> (#[trigger] accounts[j]).client_id != client_id
}

/// Why the ledger refuses the operation, or `None` where it applies it.
pub open spec fn update_refusal(
    account: AccountView,
    symbol: Seq<char>,
    quantity: nat,
    is_buy: bool,
    price: nat,
) -> Option<LedgerError> {
    if is_buy {
        account.buy_refusal(symbol, quantity, price)
    } else {
        account.sell_refusal(symbol, quantity, price)
    }
}

/// The account after an operation that the ledger applies.
pub open spec fn after_update(
    account: AccountView,
    symbol: Seq<char>,
    quantity: nat,
    is_buy: bool,
    price: nat,
) -> AccountView {
    if is_buy {
        account.after_buy(symbol, quantity, price)
    } else {
        account.after_sell(symbol, quantity, price)
    }
}

/// The position of the first account that belongs to the client.
pub fn find_client(accounts: &Vec<ClientAccount>, client_id: u64) -> (found: Option<usize>)
    ensures
        found is None <==> !has_client(account_views(accounts@), client_id),
        found is Some ==> is_first_of_client(account_views(accounts@), client_id, found->0 as int),
{
    let mut i: usize = 0;
    while i < accounts.len()
        invariant
            i <= accounts@.len(),
            forall|j: int| 0 <= j < i ==> (#[trigger] account_views(accounts@)[j]).client_id != client_id,
        decreases accounts@.len() - i,
    {
        if accounts[i].client_id() == client_id {
            assert(account_views(accounts@)[i as int].client_id == client_id);
            return Some(i);
        }
        i += 1;
    }
    None
}

/// Applies a completed buy (`is_buy`) or sale of `quantity` shares of
/// `stock_symbol` at `price_per_unit` to the first account of the list
/// that belongs to `client_id`. Where no account does, or the ledger
/// refuses the operation, the error says so and the list stays as it was.
/// The other accounts are never touched.
pub fn update_client_portfolio(
    accounts: &mut Vec<ClientAccount>,
    client_id: u64,
    stock_symbol: &str,
    quantity: u64,
    is_buy: bool,
    price_per_unit: u64,
) -> (result: Result<(), UpdateError>)
    requires
        all_wf(old(accounts)@),
    ensures
        all_wf(final(accounts)@),
        final(accounts)@.len() == old(accounts)@.len(),
        !has_client(account_views(old(accounts)@), client_id) ==> result == Err::<
            (),
            UpdateError,
        >(UpdateError::ClientNotFound) && account_views(final(accounts)@) == account_views(
            old(accounts)@,
        ),
        forall|i: int|
            is_first_of_client(account_views(old(accounts)@), client_id, i) ==> match update_refusal(
                #[trigger] account_views(old(accounts)@)[i],
                stock_symbol@,
                quantity as nat,
                is_buy,
                price_per_unit as nat,
            ) {
                Some(error) => result == Err::<(), UpdateError>(UpdateError::Refused(error))
                    && account_views(final(accounts)@) == account_views(old(accounts)@),
                None => result is Ok && account_views(final(accounts)@) == account_views(
                    old(accounts)@,
                ).update(
                    i,
                    after_update(
                        account_views(old(accounts)@)[i],
                        stock_symbol@,
                        quantity as nat,
                        is_buy,
                        price_per_unit as nat,
                    ),
                ),
            },
{
    let ghost before = account_views(accounts@);
    let at: usize = match find_client(accounts, client_id) {
        Some(at) => at,
        None => {
            return Err(UpdateError::ClientNotFound);
        },
    };
    proof {
        assert forall|i: int| is_first_of_client(before, client_id, i) implies i == at by {
            if i < at {
                assert(before[i].client_id != client_id);
            }
            if at < i {
                assert(before[at as int].client_id != client_id);
            }
        }
        assert(accounts@[at as int].wf());
    }
    let ghost old_accounts = accounts@;
    let account = &mut accounts[at];
    let outcome: Result<(), LedgerError> = if is_buy {
        account.apply_buy(stock_symbol, quantity, price_per_unit)
    } else {
        account.apply_sell(stock_symbol, quantity, price_per_unit)
    };
    proof {
        assert(accounts@.len() == old_accounts.len());
        assert forall|i: int| 0 <= i < accounts@.len() implies (#[trigger] accounts@[i]).wf() by {
            if i != at {
                assert(accounts@[i] == old_accounts[i]);
            }
        }
    }
    match outcome {
        Ok(()) => {
            proof {
                assert(account_views(accounts@) =~= before.update(
                    at as int,
                    after_update(
                        before[at as int],
                        stock_symbol@,
                        quantity as nat,
                        is_buy,
                        price_per_unit as nat,
                    ),
                ));
            }
            Ok(())
        },
        Err(error) => {
            proof {
                assert(account_views(accounts@) =~= before);
            }
            Err(UpdateError::Refused(error))
        },
    }
}

/// Whether every account of the list has a well-formed content.
pub open spec fn all_views_wf(accounts: Seq<AccountView>) -> bool {
    forall|i: int| 0 <= i < accounts.len() ==> (#[trigger] accounts[i]).wf()
}

/// Whether a buy of `quantity` shares of `symbol` stays within 64 bits:
/// the shares held afterwards, and the count of buys.
pub open spec fn buy_fits(account: AccountView, symbol: Seq<char>, quantity: nat) -> bool {
    account.quantity(symbol) + quantity <= u64::MAX && account.buy_count < u64::MAX
}

/// Whether a sale of `quantity` shares at `price` stays within 64 bits:
/// the capital afterwards, and the count of sales.
pub open spec fn sale_fits(account: AccountView, quantity: nat, price: nat) -> bool {
    account.capital + price * quantity <= u64::MAX && account.sell_count < u64::MAX
}

/// The list after the operation was applied to the account at position
/// `i`: that account changes, and no other.
pub open spec fn updated(
    accounts: Seq<AccountView>,
    i: int,
    symbol: Seq<char>,
    quantity: nat,
    is_buy: bool,
    price: nat,
) -> Seq<AccountView> {
    accounts.update(i, after_update(accounts[i], symbol, quantity, is_buy, price))
}

/// A buy that the client's capital covers is applied, within 64 bits.
/// The client's capital falls by exactly the cost, and the book rises
/// by the cost, save for the rounding of the average cost, which moves
/// the book by at most half a minor unit per share of the position; where
/// the average needs no rounding, capital plus book is what it was. No
/// other client's account changes.
pub proof fn lemma_buy_in_list(
    accounts: Seq<AccountView>,
    client_id: u64,
    i: int,
    symbol: Seq<char>,
    quantity: nat,
    price: nat,
)
    requires
        all_views_wf(accounts),
        is_first_of_client(accounts, client_id, i),
        quantity > 0,
        price * quantity <= accounts[i].capital,
        buy_fits(accounts[i], symbol, quantity),
    ensures
        update_refusal(accounts[i], symbol, quantity, true, price) is None,
        all_views_wf(updated(accounts, i, symbol, quantity, true, price)),
        updated(accounts, i, symbol, quantity, true, price)[i].capital + price * quantity
            == accounts[i].capital,
        2 * updated(accounts, i, symbol, quantity, true, price)[i].book_value() <= 2 * (
        accounts[i].book_value() + price * quantity) + (accounts[i].quantity(symbol) + quantity),
        2 * (accounts[i].book_value() + price * quantity) < 2 * updated(
            accounts,
            i,
            symbol,
            quantity,
            true,
            price,
        )[i].book_value() + (accounts[i].quantity(symbol) + quantity),
        (accounts[i].average_cost(symbol) * accounts[i].quantity(symbol) + price * quantity) % (
        accounts[i].quantity(symbol) + quantity) == 0 ==> updated(
            accounts,
            i,
            symbol,
            quantity,
            true,
            price,
        )[i].total_value() == accounts[i].total_value(),
        updated(accounts, i, symbol, quantity, true, price)[i].buy_count
            == accounts[i].buy_count + 1,
        forall|j: int|
            0 <= j < accounts.len() && j != i ==> #[trigger] updated(
                accounts,
                i,
                symbol,
                quantity,
                true,
                price,
            )[j] == accounts[j],
{
    lemma_buy_position(accounts[i], symbol, quantity, price);
    lemma_buy_accounting(accounts[i], symbol, quantity, price);
}

/// A sale of shares that the client holds is applied, within 64 bits. The
/// client's capital rises by exactly the proceeds, and the book falls by
/// exactly what the shares sold had cost. No other client's account
/// changes.
pub proof fn lemma_sale_in_list(
    accounts: Seq<AccountView>,
    client_id: u64,
    i: int,
    symbol: Seq<char>,
    quantity: nat,
    price: nat,
)
    requires
        all_views_wf(accounts),
        is_first_of_client(accounts, client_id, i),
        accounts[i].holds(symbol),
        0 < quantity <= accounts[i].quantity(symbol),
        sale_fits(accounts[i], quantity, price),
    ensures
        update_refusal(accounts[i], symbol, quantity, false, price) is None,
        all_views_wf(updated(accounts, i, symbol, quantity, false, price)),
        updated(accounts, i, symbol, quantity, false, price)[i].capital == accounts[i].capital
            + price * quantity,
        updated(accounts, i, symbol, quantity, false, price)[i].book_value() + quantity
            * accounts[i].average_cost(symbol) == accounts[i].book_value(),
        updated(accounts, i, symbol, quantity, false, price)[i].sell_count
            == accounts[i].sell_count + 1,
        forall|j: int|
            0 <= j < accounts.len() && j != i ==> #[trigger] updated(
                accounts,
                i,
                symbol,
                quantity,
                false,
                price,
            )[j] == accounts[j],
{
    lemma_sell_position(accounts[i], symbol, quantity, price);
    lemma_sell_accounting(accounts[i], symbol, quantity, price);
}

/// Two buys into a symbol that the client does not hold, both covered by
/// the capital and within 64 bits, leave the shares of both and, as the
/// average cost, the quantity-weighted mean of the two fills, rounded
/// half up to a minor unit.
pub proof fn lemma_two_buys_in_list(
    accounts: Seq<AccountView>,
    client_id: u64,
    i: int,
    symbol: Seq<char>,
    first_quantity: nat,
    first_price: nat,
    second_quantity: nat,
    second_price: nat,
)
    requires
        all_views_wf(accounts),
        is_first_of_client(accounts, client_id, i),
        !accounts[i].holds(symbol),
        first_quantity > 0,
        second_quantity > 0,
        first_price * first_quantity + second_price * second_quantity <= accounts[i].capital,
        first_quantity + second_quantity <= u64::MAX,
        accounts[i].buy_count + 1 < u64::MAX,
    ensures
        update_refusal(accounts[i], symbol, first_quantity, true, first_price) is None,
        is_first_of_client(
            updated(accounts, i, symbol, first_quantity, true, first_price),
            client_id,
            i,
        ),
        update_refusal(
            updated(accounts, i, symbol, first_quantity, true, first_price)[i],
            symbol,
            second_quantity,
            true,
            second_price,
        ) is None,
        updated(
            updated(accounts, i, symbol, first_quantity, true, first_price),
            i,
            symbol,
            second_quantity,
            true,
            second_price,
        )[i].quantity(symbol) == first_quantity + second_quantity,
        updated(
            updated(accounts, i, symbol, first_quantity, true, first_price),
            i,
            symbol,
            second_quantity,
            true,
            second_price,
        )[i].average_cost(symbol) == round_half_up(
            first_price * first_quantity + second_price * second_quantity,
            first_quantity + second_quantity,
        ),
{
    let account = accounts[i];
    let first = account.after_buy(symbol, first_quantity, first_price);
    lemma_buy_position(account, symbol, first_quantity, first_price);
    assert(first.capital == account.capital - first_price * first_quantity);
    assert(first.buy_refusal(symbol, second_quantity, second_price) is None);
    lemma_two_buys_average(
        account,
        symbol,
        first_quantity,
        first_price,
        second_quantity,
        second_price,
    );
}

/// A sale of part of a position, within 64 bits, leaves the rest of the
/// shares at the same average cost, whatever the price of the sale.
pub proof fn lemma_partial_sale_in_list(
    accounts: Seq<AccountView>,
    client_id: u64,
    i: int,
    symbol: Seq<char>,
    quantity: nat,
    price: nat,
)
    requires
        all_views_wf(accounts),
        is_first_of_client(accounts, client_id, i),
        accounts[i].holds(symbol),
        0 < quantity < accounts[i].quantity(symbol),
        sale_fits(accounts[i], quantity, price),
    ensures
        update_refusal(accounts[i], symbol, quantity, false, price) is None,
        updated(accounts, i, symbol, quantity, false, price)[i].holds(symbol),
        updated(accounts, i, symbol, quantity, false, price)[i].quantity(symbol)
            == accounts[i].quantity(symbol) - quantity,
        updated(accounts, i, symbol, quantity, false, price)[i].average_cost(symbol)
            == accounts[i].average_cost(symbol),
{
    lemma_sell_position(accounts[i], symbol, quantity, price);
}

/// A sale of a whole position, within 64 bits, drops the position,
/// counts one sale, and leaves no position without shares.
pub proof fn lemma_full_sale_in_list(
    accounts: Seq<AccountView>,
    client_id: u64,
    i: int,
    symbol: Seq<char>,
    quantity: nat,
    price: nat,
)
    requires
        all_views_wf(accounts),
        is_first_of_client(accounts, client_id, i),
        accounts[i].holds(symbol),
        quantity == accounts[i].quantity(symbol),
        sale_fits(accounts[i], quantity, price),
    ensures
        update_refusal(accounts[i], symbol, quantity, false, price) is None,
        !updated(accounts, i, symbol, quantity, false, price)[i].holds(symbol),
        updated(accounts, i, symbol, quantity, false, price)[i].sell_count
            == accounts[i].sell_count + 1,
        forall|k: int|
            0 <= k < updated(accounts, i, symbol, quantity, false, price)[i].positions.len()
                ==> (#[trigger] updated(
                accounts,
                i,
                symbol,
                quantity,
                false,
                price,
            )[i].positions[k]).quantity >= 1,
{
    let account = accounts[i];
    assert(account.positions[account.symbols.index_of(symbol)].quantity > 0);
    lemma_sell_position(account, symbol, quantity, price);
}

} // verus!
