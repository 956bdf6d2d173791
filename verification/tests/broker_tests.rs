use market_sim::broker::{initialize_brokers, Broker};
use market_sim::delivery::Applied;
use market_sim::ledger::{Holding, LedgerError};
use market_sim::models::{Order, OrderAction, OrderStatus, OrderType, PriceUpdate};
use market_sim::order_id::OrderIdAllocator;
use rand::rngs::StdRng;
use rand::SeedableRng;

fn completed(id: u64, client: u64, symbol: &str, action: OrderAction, price: u64, quantity: u64) -> Order {
    Order {
        broker_id: 1,
        client_id: client,
        order_id: id,
        stock_symbol: symbol.to_string(),
        order_type: OrderType::Limit,
        order_action: action,
        price,
        quantity,
        status: OrderStatus::Completed,
    }
}

fn price(name: &str, price: u64) -> PriceUpdate {
    PriceUpdate { name: name.to_string(), price }
}

#[test]
fn broker_owns_consecutive_clients() {
    let first = Broker::new(1, 3, 1_000_000);
    let ids: Vec<u64> = first.get_clients().iter().map(|c| c.id).collect();
    assert_eq!(ids, vec![1, 2, 3]);
    let third = Broker::new(3, 3, 1_000_000);
    let ids: Vec<u64> = third.get_clients().iter().map(|c| c.id).collect();
    assert_eq!(ids, vec![7, 8, 9]);
    assert_eq!(third.id(), 3);
    assert_eq!(third.get_accounts().len(), 3);
    for (client, account) in third.get_clients().iter().zip(third.get_accounts()) {
        assert_eq!(account.capital(), 1_000_000);
        assert_eq!(account.client_id(), client.id);
        assert_eq!(account.holdings_len(), 0);
        assert_eq!(client.initial_capital, 1_000_000);
        assert!(client.pending_orders.is_empty());
    }
    assert!(Broker::new(2, 0, 5).get_clients().is_empty());
}

#[test]
fn brokers_share_no_client() {
    let brokers = initialize_brokers(5, 3, 1_000_000);
    assert_eq!(brokers.len(), 5);
    let mut seen = Vec::new();
    for (position, broker) in brokers.iter().enumerate() {
        assert_eq!(broker.id(), position as u64 + 1);
        for client in broker.get_clients() {
            seen.push(client.id);
        }
    }
    assert_eq!(seen, (1..=15).collect::<Vec<u64>>());
    assert!(initialize_brokers(0, 3, 1).is_empty());
}

#[test]
fn broker_keeps_the_latest_price() {
    let mut broker = Broker::new(1, 1, 1_000);
    assert_eq!(broker.price_of("AAPL"), None);
    broker.update_price(&price("AAPL", 10_000));
    broker.update_price(&price("MSFT", 20_000));
    broker.update_price(&price("AAPL", 10_100));
    assert_eq!(broker.price_of("AAPL"), Some(10_100));
    assert_eq!(broker.price_of("MSFT"), Some(20_000));
}

#[test]
fn settled_order_reaches_its_client() {
    let mut broker = Broker::new(2, 3, 1_000_000);
    let buy = completed(1, 5, "AAPL", OrderAction::Buy, 9_996, 5);
    assert_eq!(broker.settle_order(&buy), Applied::Bought);
    let accounts = broker.get_accounts();
    assert_eq!(accounts[0].capital(), 1_000_000);
    assert_eq!(accounts[1].capital(), 950_020);
    assert_eq!(accounts[1].holding_of("AAPL"), Some(Holding { quantity: 5, average_cost: 9_996 }));
    assert_eq!(accounts[2].capital(), 1_000_000);
}

#[test]
fn order_of_another_shard_is_reported() {
    let mut broker = Broker::new(2, 3, 1_000_000);
    for client in [0, 3, 7, u64::MAX] {
        let order = completed(1, client, "AAPL", OrderAction::Buy, 100, 1);
        assert_eq!(broker.settle_order(&order), Applied::WrongClient);
    }
    for account in broker.get_accounts() {
        assert_eq!(account.capital(), 1_000_000);
    }
    // not having been let through, the identifier is still free
    let own = completed(1, 4, "AAPL", OrderAction::Buy, 100, 1);
    assert_eq!(broker.settle_order(&own), Applied::Bought);
}

#[test]
fn batch_of_settled_orders_is_applied_in_turn() {
    let mut broker = Broker::new(1, 2, 100_000);
    let mut pending = completed(4, 1, "A", OrderAction::Buy, 1_000, 1);
    pending.status = OrderStatus::Pending;
    let mut rejected = completed(5, 2, "A", OrderAction::Buy, 1_000, 1);
    rejected.status = OrderStatus::Rejected;
    let orders = vec![
        completed(1, 1, "A", OrderAction::Buy, 1_000, 10),
        completed(1, 1, "A", OrderAction::Buy, 1_000, 10),
        completed(2, 1, "A", OrderAction::Sell, 1_500, 4),
        completed(3, 2, "A", OrderAction::Sell, 1_500, 4),
        pending,
        rejected,
        completed(6, 9, "A", OrderAction::Buy, 1_000, 1),
        completed(7, 2, "B", OrderAction::Buy, 100_001, 1),
        completed(8, 2, "B", OrderAction::Cancel, 1, 1),
    ];
    let results = broker.process_completed_orders(&orders);
    assert_eq!(
        results,
        vec![
            Applied::Bought,
            Applied::Duplicate,
            Applied::Sold,
            Applied::Refused(LedgerError::NoPosition),
            Applied::StillPending,
            Applied::Void,
            Applied::WrongClient,
            Applied::Refused(LedgerError::InsufficientCapital),
            Applied::InvalidAction,
        ]
    );
    let accounts = broker.get_accounts();
    assert_eq!(accounts[0].capital(), 100_000 - 10_000 + 6_000);
    assert_eq!(accounts[0].holding_of("A"), Some(Holding { quantity: 6, average_cost: 1_000 }));
    assert_eq!(accounts[0].buy_count(), 1);
    assert_eq!(accounts[0].sell_count(), 1);
    assert_eq!(accounts[1].capital(), 100_000);
    assert_eq!(accounts[1].holdings_len(), 0);
    // a second delivery of the whole batch does nothing more
    let again = broker.process_completed_orders(&orders);
    assert_eq!(again[0], Applied::Duplicate);
    assert_eq!(again[2], Applied::Duplicate);
    assert_eq!(broker.get_accounts()[0].capital(), 96_000);
}

#[test]
fn cycle_hands_on_orders_with_rising_identifiers() {
    let mut rng = StdRng::from_entropy();
    let mut broker = Broker::new(2, 3, 1_000_000);
    for (name, value) in [("A", 10_000), ("B", 20_000), ("C", 5_000)] {
        broker.update_price(&price(name, value));
    }
    let mut allocator = OrderIdAllocator::new();
    let mut next_id = 1;
    let mut total = 0;
    for _ in 0..100 {
        let orders = broker.run_cycle(&mut rng, &mut allocator, 2, false);
        assert!(orders.len() <= 6);
        let mut last = (0, 0);
        for order in &orders {
            assert_eq!(order.order_id, next_id);
            next_id += 1;
            assert_eq!(order.broker_id, 2);
            assert!(4 <= order.client_id && order.client_id <= 6);
            assert_eq!(order.status, OrderStatus::Pending);
            // nobody holds anything yet
            assert_eq!(order.order_action, OrderAction::Buy);
            // client by client, and for each client in the book's order
            let place = ["A", "B", "C"].iter().position(|s| *s == order.stock_symbol).unwrap();
            assert!(last < (order.client_id, place + 1));
            last = (order.client_id, place + 1);
        }
        total += orders.len();
        for client in broker.get_clients() {
            assert!(client.pending_orders.is_empty());
        }
        for account in broker.get_accounts() {
            assert_eq!(account.capital(), 1_000_000);
        }
    }
    assert!(total > 0);
    let records: usize = broker.get_clients().iter().map(|c| c.broker_records.len()).sum();
    assert_eq!(records, total);
    assert!(broker.run_cycle(&mut rng, &mut allocator, 2, true).is_empty());
}

#[test]
fn settlement_closes_the_record_of_the_order() {
    let mut rng = StdRng::from_entropy();
    let mut broker = Broker::new(1, 1, 1_000_000);
    broker.update_price(&price("A", 10_000));
    let mut allocator = OrderIdAllocator::new();
    let mut orders = Vec::new();
    while orders.is_empty() {
        orders = broker.process_client_orders(&mut rng, 0, &mut allocator, 1, false);
    }
    assert_eq!(orders.len(), 1);
    assert_eq!(broker.get_clients()[0].broker_records.len(), 1);
    assert_eq!(broker.get_clients()[0].broker_records.records[0].order_id, orders[0].order_id);
    assert_eq!(broker.get_clients()[0].broker_records.records[0].stop_loss, Some(9_000));
    // while the order is pending the record stays
    assert_eq!(broker.settle_order(&orders[0]), Applied::StillPending);
    assert_eq!(broker.get_clients()[0].broker_records.len(), 1);
    let mut done = orders[0].duplicate();
    done.status = OrderStatus::Rejected;
    assert_eq!(broker.settle_order(&done), Applied::Void);
    assert_eq!(broker.get_clients()[0].broker_records.len(), 0);
    assert_eq!(broker.get_accounts()[0].capital(), 1_000_000);
}
