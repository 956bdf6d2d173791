use market_sim::delivery::{Applied, DeliveryLog};
use market_sim::ledger::{ClientAccount, Holding, LedgerError};
use market_sim::models::{Order, OrderAction, OrderStatus, OrderType};
use market_sim::settlement::{settle, Outcome};

fn order(id: u64, client: u64, symbol: &str, action: OrderAction, price: u64, quantity: u64) -> Order {
    Order {
        broker_id: 1,
        client_id: client,
        order_id: id,
        stock_symbol: symbol.to_string(),
        order_type: OrderType::Limit,
        order_action: action,
        price,
        quantity,
        status: OrderStatus::Pending,
    }
}

#[test]
fn buy_five_shares_at_adjusted_price() {
    let mut account = ClientAccount::new(1, 1_000_000);
    let mut log = DeliveryLog::new();
    let mut buy = order(1, 1, "AAPL", OrderAction::Buy, 9_800, 5);
    assert_eq!(settle(&mut buy, Outcome::Completed), Ok(()));
    assert_eq!(buy.price, 9_996);
    assert_eq!(buy.status, OrderStatus::Completed);
    assert_eq!(log.apply_settlement(&mut account, &buy), Applied::Bought);
    assert_eq!(account.capital(), 950_020);
    assert_eq!(account.holding_of("AAPL"), Some(Holding { quantity: 5, average_cost: 9_996 }));
    assert_eq!(account.buy_count(), 1);
    assert_eq!(account.sell_count(), 0);
}

#[test]
fn sell_whole_position_removes_it() {
    let mut account = ClientAccount::new(1, 1_000_000);
    let mut log = DeliveryLog::new();
    let mut buy = order(1, 1, "AAPL", OrderAction::Buy, 9_800, 5);
    assert_eq!(settle(&mut buy, Outcome::Completed), Ok(()));
    assert_eq!(log.apply_settlement(&mut account, &buy), Applied::Bought);
    let before = account.capital();
    let mut sell = order(2, 1, "AAPL", OrderAction::Sell, 10_500, 5);
    assert_eq!(settle(&mut sell, Outcome::Completed), Ok(()));
    assert_eq!(sell.price, 10_710);
    assert_eq!(log.apply_settlement(&mut account, &sell), Applied::Sold);
    assert_eq!(account.holding_of("AAPL"), None);
    assert_eq!(account.holdings_len(), 0);
    assert_eq!(account.capital() - before, 53_550);
    assert_eq!(account.sell_count(), 1);
}

#[test]
fn two_buys_give_weighted_average() {
    let mut account = ClientAccount::new(7, 10_000_000);
    assert_eq!(account.apply_buy("MSFT", 10, 10_000), Ok(()));
    assert_eq!(account.holding_of("MSFT"), Some(Holding { quantity: 10, average_cost: 10_000 }));
    assert_eq!(account.apply_buy("MSFT", 30, 12_000), Ok(()));
    assert_eq!(account.holding_of("MSFT"), Some(Holding { quantity: 40, average_cost: 11_500 }));
    assert_eq!(account.capital(), 10_000_000 - 100_000 - 360_000);
    assert_eq!(account.buy_count(), 2);
}

#[test]
fn average_cost_rounds_half_up() {
    let mut account = ClientAccount::new(7, 1_000_000);
    assert_eq!(account.apply_buy("X", 1, 100), Ok(()));
    assert_eq!(account.apply_buy("X", 2, 101), Ok(()));
    // (100 + 202) / 3 = 100.67
    assert_eq!(account.holding_of("X"), Some(Holding { quantity: 3, average_cost: 101 }));
    let mut half = ClientAccount::new(8, 1_000_000);
    assert_eq!(half.apply_buy("Y", 1, 100), Ok(()));
    assert_eq!(half.apply_buy("Y", 1, 101), Ok(()));
    // 100.5 goes up
    assert_eq!(half.holding_of("Y"), Some(Holding { quantity: 2, average_cost: 101 }));
}

#[test]
fn three_buys_average_step_by_step() {
    let mut account = ClientAccount::new(7, 1_000_000);
    assert_eq!(account.apply_buy("Z", 1, 0), Ok(()));
    assert_eq!(account.apply_buy("Z", 1, 1), Ok(()));
    assert_eq!(account.holding_of("Z"), Some(Holding { quantity: 2, average_cost: 1 }));
    assert_eq!(account.apply_buy("Z", 2, 0), Ok(()));
    // each step rounds: (1 * 2 + 0) / 4 = 0.5 goes up to 1
    assert_eq!(account.holding_of("Z"), Some(Holding { quantity: 4, average_cost: 1 }));
}

#[test]
fn partial_sale_keeps_average_cost() {
    let mut account = ClientAccount::new(3, 5_000_000);
    assert_eq!(account.apply_buy("GOOG", 8, 12_345), Ok(()));
    assert_eq!(account.apply_sell("GOOG", 3, 20_000), Ok(()));
    assert_eq!(account.holding_of("GOOG"), Some(Holding { quantity: 5, average_cost: 12_345 }));
    assert_eq!(account.apply_sell("GOOG", 5, 1), Ok(()));
    assert_eq!(account.holding_of("GOOG"), None);
    assert_eq!(account.quantity_of("GOOG"), 0);
}

#[test]
fn buy_after_full_sale_starts_a_fresh_average() {
    let mut account = ClientAccount::new(3, 5_000_000);
    assert_eq!(account.apply_buy("GOOG", 4, 10_000), Ok(()));
    assert_eq!(account.apply_sell("GOOG", 4, 10_000), Ok(()));
    assert_eq!(account.apply_buy("GOOG", 2, 30_000), Ok(()));
    assert_eq!(account.holding_of("GOOG"), Some(Holding { quantity: 2, average_cost: 30_000 }));
}

#[test]
fn capital_and_book_follow_the_cash_flows() {
    let mut account = ClientAccount::new(3, 1_000_000);
    assert_eq!(account.apply_buy("A", 4, 2_500), Ok(()));
    assert_eq!(account.apply_buy("B", 2, 10_000), Ok(()));
    assert_eq!(account.apply_buy("A", 4, 3_500), Ok(()));
    // all averages are exact: capital plus book is what it was
    let book: u64 = (0..account.holdings_len())
        .map(|i| {
            let h = account.holding_at(i);
            h.quantity * h.average_cost
        })
        .sum();
    assert_eq!(account.capital(), 1_000_000 - 10_000 - 20_000 - 14_000);
    assert_eq!(book, 44_000);
    assert_eq!(account.capital() + book, 1_000_000);
    // a sale moves the cost of the shares out of the book and the
    // proceeds into the capital
    assert_eq!(account.apply_sell("A", 3, 4_000), Ok(()));
    let book_after: u64 = (0..account.holdings_len())
        .map(|i| {
            let h = account.holding_at(i);
            h.quantity * h.average_cost
        })
        .sum();
    assert_eq!(book_after, 44_000 - 3 * 3_000);
    assert_eq!(account.capital(), 956_000 + 12_000);
}

#[test]
fn buy_without_capital_is_refused() {
    let mut account = ClientAccount::new(1, 1_000);
    assert_eq!(account.apply_buy("AAPL", 2, 501), Err(LedgerError::InsufficientCapital));
    assert_eq!(account.capital(), 1_000);
    assert_eq!(account.buy_count(), 0);
    assert_eq!(account.holdings_len(), 0);
    assert_eq!(account.apply_buy("AAPL", 2, 500), Ok(()));
    assert_eq!(account.capital(), 0);
}

#[test]
fn sale_of_unheld_symbol_is_refused() {
    let mut account = ClientAccount::new(1, 1_000);
    assert_eq!(account.apply_sell("AAPL", 1, 100), Err(LedgerError::NoPosition));
    assert_eq!(account.capital(), 1_000);
    assert_eq!(account.sell_count(), 0);
}

#[test]
fn sale_of_too_many_shares_is_refused() {
    let mut account = ClientAccount::new(1, 100_000);
    assert_eq!(account.apply_buy("AAPL", 3, 100), Ok(()));
    assert_eq!(account.apply_sell("AAPL", 4, 100), Err(LedgerError::InsufficientShares));
    assert_eq!(account.holding_of("AAPL"), Some(Holding { quantity: 3, average_cost: 100 }));
    assert_eq!(account.capital(), 99_700);
    assert_eq!(account.sell_count(), 0);
}

#[test]
fn operation_without_shares_is_refused() {
    let mut account = ClientAccount::new(1, 100_000);
    assert_eq!(account.apply_buy("AAPL", 0, 100), Err(LedgerError::ZeroQuantity));
    assert_eq!(account.apply_sell("AAPL", 0, 100), Err(LedgerError::ZeroQuantity));
    assert_eq!(account.holdings_len(), 0);
}

#[test]
fn results_beyond_sixty_four_bits_are_refused() {
    let mut account = ClientAccount::new(1, u64::MAX);
    assert_eq!(account.apply_buy("AAPL", u64::MAX, 0), Ok(()));
    assert_eq!(account.apply_buy("AAPL", 1, 0), Err(LedgerError::Overflow));
    assert_eq!(account.apply_sell("AAPL", 1, 1), Err(LedgerError::Overflow));
    assert_eq!(account.quantity_of("AAPL"), u64::MAX);
    assert_eq!(account.capital(), u64::MAX);
}

#[test]
fn second_delivery_of_an_order_changes_nothing() {
    let mut account = ClientAccount::new(1, 1_000_000);
    let mut log = DeliveryLog::new();
    let mut buy = order(41, 1, "AAPL", OrderAction::Buy, 10_000, 5);
    buy.status = OrderStatus::Completed;
    assert!(!log.has_seen(41));
    assert_eq!(log.apply_settlement(&mut account, &buy), Applied::Bought);
    assert!(log.has_seen(41));
    let capital = account.capital();
    assert_eq!(log.apply_settlement(&mut account, &buy), Applied::Duplicate);
    assert_eq!(account.capital(), capital);
    assert_eq!(account.quantity_of("AAPL"), 5);
    assert_eq!(account.buy_count(), 1);
}

#[test]
fn log_holds_back_what_is_not_for_the_ledger() {
    let mut account = ClientAccount::new(1, 1_000_000);
    let mut log = DeliveryLog::new();
    let pending = order(5, 1, "AAPL", OrderAction::Buy, 10_000, 5);
    assert_eq!(log.apply_settlement(&mut account, &pending), Applied::StillPending);
    assert!(!log.has_seen(5));
    let mut other = order(6, 2, "AAPL", OrderAction::Buy, 10_000, 5);
    other.status = OrderStatus::Completed;
    assert_eq!(log.apply_settlement(&mut account, &other), Applied::WrongClient);
    assert!(!log.has_seen(6));
    let mut rejected = order(7, 1, "AAPL", OrderAction::Buy, 10_000, 5);
    rejected.status = OrderStatus::Rejected;
    assert_eq!(log.apply_settlement(&mut account, &rejected), Applied::Void);
    assert!(log.has_seen(7));
    let mut cancel = order(8, 1, "AAPL", OrderAction::Cancel, 10_000, 5);
    cancel.status = OrderStatus::Completed;
    assert_eq!(log.apply_settlement(&mut account, &cancel), Applied::InvalidAction);
    let mut oversold = order(9, 1, "AAPL", OrderAction::Sell, 10_000, 5);
    oversold.status = OrderStatus::Completed;
    assert_eq!(
        log.apply_settlement(&mut account, &oversold),
        Applied::Refused(LedgerError::NoPosition)
    );
    assert_eq!(log.apply_settlement(&mut account, &oversold), Applied::Duplicate);
    assert_eq!(account.capital(), 1_000_000);
    assert_eq!(account.holdings_len(), 0);
}

#[test]
fn settlement_order_does_not_matter_to_the_ledger() {
    let mut first = order(10, 1, "A", OrderAction::Buy, 1_000, 2);
    first.status = OrderStatus::Completed;
    let mut second = order(11, 1, "B", OrderAction::Buy, 2_000, 3);
    second.status = OrderStatus::Completed;
    let mut one = ClientAccount::new(1, 100_000);
    let mut log_one = DeliveryLog::new();
    log_one.apply_settlement(&mut one, &first);
    log_one.apply_settlement(&mut one, &second);
    let mut two = ClientAccount::new(1, 100_000);
    let mut log_two = DeliveryLog::new();
    log_two.apply_settlement(&mut two, &second);
    log_two.apply_settlement(&mut two, &first);
    assert_eq!(one.capital(), two.capital());
    assert_eq!(one.holding_of("A"), two.holding_of("A"));
    assert_eq!(one.holding_of("B"), two.holding_of("B"));
}

#[test]
fn restored_account_holds_what_was_recorded() {
    let mut account = ClientAccount::restore(9, 500, 3, 2);
    assert!(account.restore_holding("A", Holding { quantity: 2, average_cost: 10 }));
    assert!(!account.restore_holding("A", Holding { quantity: 5, average_cost: 10 }));
    assert!(!account.restore_holding("B", Holding { quantity: 0, average_cost: 10 }));
    assert_eq!(account.client_id(), 9);
    assert_eq!(account.capital(), 500);
    assert_eq!(account.buy_count(), 3);
    assert_eq!(account.sell_count(), 2);
    assert_eq!(account.holdings_len(), 1);
    assert_eq!(account.symbol_at(0), "A");
    assert_eq!(account.holding_at(0), Holding { quantity: 2, average_cost: 10 });
}
