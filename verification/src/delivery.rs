//! The delivery log in front of the ledger. Settlement may deliver a
//! decision more than once; the log lets each order through once.

use vstd::prelude::*;
use std::collections::HashSet;
use crate::ledger::{AccountView, ClientAccount, LedgerError};
use crate::models::{Order, OrderAction, OrderStatus, OrderView};

verus! {

broadcast use vstd::std_specs::hash::group_hash_axioms;

/// What became of a settled order at the ledger.
#[derive(Clone, Copy, Debug, PartialEq, Eq, Structural)]
pub enum Applied {
    /// A completed buy was applied.
    Bought,
    /// A completed sale was applied.
    Sold,
    /// The order was rejected by settlement: the ledger stays as it was.
    Void,
    /// The order had been let through before: nothing was done.
    Duplicate,
    /// The order is not settled yet: nothing was done.
    StillPending,
    /// The order belongs to another client: nothing was done.
    WrongClient,
    /// The order is neither a buy nor a sale: the ledger stays as it was.
    InvalidAction,
    /// The ledger refused the order and stays as it was.
    Refused(LedgerError),
}

/// The identifiers of the orders that have been let through.
pub struct DeliveryLog {
    seen: HashSet<u64>,
}

impl View for DeliveryLog {
    type V = Set<u64>;

    closed spec fn view(&self) -> Set<u64> {
        self.seen@
    }
}

/// Whether `order` is let through to the ledger of `account`: it
/// is settled, it belongs to the client, and it has not passed before.
pub open spec fn passes(seen: Set<u64>, account: AccountView, order: OrderView) -> bool {
    &&& order.status != OrderStatus::Pending
    &&& order.client_id == account.client_id
    &&& !seen.contains(order.order_id)
}

/// What becomes of `order` at the log and the ledger behind it.
pub open spec fn verdict(seen: Set<u64>, account: AccountView, order: OrderView) -> Applied {
    if order.status == OrderStatus::Pending {
        Applied::StillPending
    } else if order.client_id != account.client_id {
        Applied::WrongClient
    } else if seen.contains(order.order_id) {
        Applied::Duplicate
    } else if order.status == OrderStatus::Rejected {
        Applied::Void
    } else {
        match order.order_action {
            OrderAction::Buy => match account.buy_refusal(
                order.stock_symbol,
                order.quantity as nat,
                order.price as nat,
            ) {
                Some(error) => Applied::Refused(error),
                None => Applied::Bought,
            },
            OrderAction::Sell => match account.sell_refusal(
                order.stock_symbol,
                order.quantity as nat,
                order.price as nat,
            ) {
                Some(error) => Applied::Refused(error),
                None => Applied::Sold,
            },
            OrderAction::Cancel => Applied::InvalidAction,
        }
    }
}

/// The account after `order` arrived: changed only by a completed buy or
/// sale that is let through and that the ledger admits.
pub open spec fn account_after(seen: Set<u64>, account: AccountView, order: OrderView) -> AccountView {
    match verdict(seen, account, order) {
        Applied::Bought => account.after_buy(
            order.stock_symbol,
            order.quantity as nat,
            order.price as nat,
        ),
        Applied::Sold => account.after_sell(
            order.stock_symbol,
            order.quantity as nat,
            order.price as nat,
        ),
        _ => account,
    }
}

/// The identifiers that have been let through once `order` arrived.
pub open spec fn seen_after(seen: Set<u64>, account: AccountView, order: OrderView) -> Set<u64> {
    if passes(seen, account, order) {
        seen.insert(order.order_id)
    } else {
        seen
    }
}

impl DeliveryLog {
    /// A log that nothing has passed.
    pub fn new() -> (log: Self)
        ensures
            log@ == Set::<u64>::empty(),
    {
        DeliveryLog { seen: HashSet::new() }
    }

    /// Whether the order with this identifier has passed.
    pub fn has_seen(&self, order_id: u64) -> (seen: bool)
        ensures
            seen == self@.contains(order_id),
    {
        self.seen.contains(&order_id)
    }

    /// Brings a settled order to the ledger of `account`. An order passes
    /// once: a second delivery of it is a duplicate and changes nothing.
    /// A pending order and an order of another client do not pass, and
    /// leave the log as it was. Of the orders that pass, a completed buy
    /// or sale is applied to the ledger, unless the ledger refuses it; a
    /// rejected order leaves the ledger as it was.
    pub fn apply_settlement(&mut self, account: &mut ClientAccount, order: &Order) -> (applied:
        Applied)
        requires
            old(account).wf(),
        ensures
            final(account).wf(),
            applied == verdict(old(self)@, old(account)@, order@),
            final(account)@ == account_after(old(self)@, old(account)@, order@),
            final(self)@ == seen_after(old(self)@, old(account)@, order@),
    {
        match order.status {
            OrderStatus::Pending => {
                return Applied::StillPending;
            },
            _ => {},
        }
        if order.client_id != account.client_id() {
            return Applied::WrongClient;
        }
        if self.seen.contains(&order.order_id) {
            return Applied::Duplicate;
        }
        self.seen.insert(order.order_id);
        match order.status {
            OrderStatus::Rejected => {
                return Applied::Void;
            },
            _ => {},
        }
        match order.order_action {
            OrderAction::Buy => {
                match account.apply_buy(order.stock_symbol.as_str(), order.quantity, order.price) {
                    Ok(()) => Applied::Bought,
                    Err(error) => Applied::Refused(error),
                }
            },
            OrderAction::Sell => {
                match account.apply_sell(order.stock_symbol.as_str(), order.quantity, order.price) {
                    Ok(()) => Applied::Sold,
                    Err(error) => Applied::Refused(error),
                }
            },
            OrderAction::Cancel => Applied::InvalidAction,
        }
    }
}

/// Delivering the same order a second time changes neither the ledger nor
/// the log: whatever the first delivery did, it is done once.
pub proof fn lemma_second_delivery_changes_nothing(seen: Set<u64>, account: AccountView, order: OrderView)
    ensures
        account_after(
            seen_after(seen, account, order),
            account_after(seen, account, order),
            order,
        ) == account_after(seen, account, order),
        seen_after(seen_after(seen, account, order), account_after(seen, account, order), order)
            == seen_after(seen, account, order),
        verdict(seen_after(seen, account, order), account_after(seen, account, order), order)
            == Applied::Duplicate || verdict(
            seen_after(seen, account, order),
            account_after(seen, account, order),
            order,
        ) == verdict(seen, account, order),
        passes(seen, account, order) ==> verdict(
            seen_after(seen, account, order),
            account_after(seen, account, order),
            order,
        ) == Applied::Duplicate,
{
    let first = account_after(seen, account, order);
    assert(first.client_id == account.client_id);
}

/// An order that has been let through stays known to the log, whatever arrives
/// later.
pub proof fn lemma_log_only_grows(seen: Set<u64>, account: AccountView, order: OrderView, earlier: u64)
    requires
        seen.contains(earlier),
    ensures
        seen_after(seen, account, order).contains(earlier),
{
}

/// The ledger changes only for an order that is let through: a pending
/// order, a duplicate and an order of another client leave it as it was.
pub proof fn lemma_only_passing_orders_change_ledger(
    seen: Set<u64>,
    account: AccountView,
    order: OrderView,
)
    requires
        !passes(seen, account, order),
    ensures
        account_after(seen, account, order) == account,
        seen_after(seen, account, order) == seen,
{
}

/// No sale is applied for more shares than the client holds: where an
/// order is applied as a sale, the shares were there, and what is left is
/// what was held less what was sold.
pub proof fn lemma_sale_within_holding(seen: Set<u64>, account: AccountView, order: OrderView)
    requires
        account.wf(),
        verdict(seen, account, order) == Applied::Sold,
    ensures
        order.quantity <= account.quantity(order.stock_symbol),
        account_after(seen, account, order).quantity(order.stock_symbol) + order.quantity
            == account.quantity(order.stock_symbol),
{
    crate::ledger_laws::lemma_sell_position(
        account,
        order.stock_symbol,
        order.quantity as nat,
        order.price as nat,
    );
}

} // verus!
