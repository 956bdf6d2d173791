use market_sim::broker::Broker;
use market_sim::client::{BrokerRecord, Client};
use market_sim::generator::{draw_orders, draw_rounds, OrderDraws};
use market_sim::ledger::ClientAccount;
use market_sim::models::{OrderAction, OrderStatus, OrderType, PriceUpdate};
use market_sim::order_id::OrderIdAllocator;
use market_sim::price_book::PriceBook;
use market_sim::price_feed::{apply_steps, random_changes, step_of};
use rand::rngs::StdRng;
use rand::SeedableRng;

fn draws(wants_buy: bool, wants_limit: bool, quantity: u64, modifier: u64) -> OrderDraws {
    OrderDraws { wants_buy, wants_limit, quantity, modifier }
}

fn book() -> PriceBook {
    let mut prices = PriceBook::new();
    for (symbol, price) in [("A", 10_000), ("B", 20_000), ("C", 5_000), ("D", 7_500)] {
        prices.update(symbol, price);
    }
    prices
}

fn holder() -> ClientAccount {
    let mut account = ClientAccount::new(9, 300_000);
    assert_eq!(account.apply_buy("A", 5, 10_000), Ok(()));
    assert_eq!(account.apply_buy("B", 3, 20_000), Ok(()));
    account
}

// the client considers C and D first, then B, then A
fn four_draws() -> Vec<OrderDraws> {
    vec![
        draws(true, true, 2, 10_000),
        draws(false, false, 1, 9_000),
        draws(false, true, 3, 11_000),
        draws(false, true, 6, 10_000),
    ]
}

#[test]
fn round_with_given_draws_places_what_they_give() {
    let prices = book();
    let account = holder();
    let mut client = Client::with_capital(9, 300_000);
    let mut allocator = OrderIdAllocator::new();
    client.generate_with_draws(2, Some(&account), &prices, &mut allocator, 4, false, &four_draws());
    let placed: Vec<_> = client
        .pending_orders
        .iter()
        .map(|o| {
            (
                o.order_id,
                o.stock_symbol.as_str(),
                o.order_action,
                o.order_type,
                o.price,
                o.quantity,
            )
        })
        .collect();
    assert_eq!(
        placed,
        vec![
            (1, "C", OrderAction::Buy, OrderType::Limit, 5_000, 2),
            // nothing is held of D, so the client buys whatever the draw
            (2, "D", OrderAction::Buy, OrderType::Market, 7_500, 1),
            (3, "B", OrderAction::Sell, OrderType::Limit, 22_000, 3),
            // the sale of six of A is dropped: five are held
        ]
    );
    for order in &client.pending_orders {
        assert_eq!(order.client_id, 9);
        assert_eq!(order.broker_id, 2);
        assert_eq!(order.status, OrderStatus::Pending);
    }
    assert_eq!(
        client.broker_records.records,
        vec![
            BrokerRecord { client_id: 9, order_id: 1, stop_loss: Some(4_500), take_profit: Some(5_500) },
            BrokerRecord { client_id: 9, order_id: 2, stop_loss: Some(6_750), take_profit: Some(8_250) },
        ]
    );
    assert_eq!(allocator.allocate(), Some(4));
}

#[test]
fn round_ends_at_the_cap() {
    let prices = book();
    let account = holder();
    let mut client = Client::with_capital(9, 300_000);
    let mut allocator = OrderIdAllocator::new();
    client.generate_with_draws(2, Some(&account), &prices, &mut allocator, 2, false, &four_draws());
    let symbols: Vec<&str> = client.pending_orders.iter().map(|o| o.stock_symbol.as_str()).collect();
    assert_eq!(symbols, vec!["C", "D"]);
    assert_eq!(allocator.allocate(), Some(3));
}

#[test]
fn dropped_candidate_gives_its_turn_to_the_next_symbol() {
    let prices = book();
    // five of A are held, and 10,000 of capital are left
    let mut poor = ClientAccount::new(9, 60_000);
    assert_eq!(poor.apply_buy("A", 5, 10_000), Ok(()));
    let mut client = Client::with_capital(9, 60_000);
    let mut allocator = OrderIdAllocator::new();
    // this client considers B, C and D first, then A
    let given = vec![
        // ten of B at 259.98 are beyond the capital
        draws(true, true, 10, 12_999),
        draws(true, false, 1, 10_000),
        // one of D at 75.00 is within it: the buy of C set nothing aside
        draws(true, false, 1, 10_000),
        draws(false, false, 1, 10_000),
    ];
    client.generate_with_draws(2, Some(&poor), &prices, &mut allocator, 2, false, &given);
    let placed: Vec<_> = client
        .pending_orders
        .iter()
        .map(|o| (o.order_id, o.stock_symbol.as_str(), o.order_action, o.price))
        .collect();
    assert_eq!(
        placed,
        vec![(1, "C", OrderAction::Buy, 5_000), (2, "D", OrderAction::Buy, 7_500)]
    );
    // with room for one more, the sale of one of A follows
    let mut next = Client::with_capital(9, 60_000);
    next.generate_with_draws(2, Some(&poor), &prices, &mut allocator, 3, false, &given);
    assert_eq!(next.pending_orders.len(), 3);
    assert_eq!(next.pending_orders[2].stock_symbol, "A");
    assert_eq!(next.pending_orders[2].order_action, OrderAction::Sell);
    assert_eq!(next.pending_orders[2].order_id, 5);
}

#[test]
fn round_ends_when_the_draws_are_used_up() {
    let prices = book();
    let account = holder();
    let mut client = Client::with_capital(9, 300_000);
    let mut allocator = OrderIdAllocator::new();
    let one = vec![draws(true, false, 3, 10_000)];
    client.generate_with_draws(2, Some(&account), &prices, &mut allocator, 4, false, &one);
    assert_eq!(client.pending_orders.len(), 1);
    assert_eq!(client.pending_orders[0].stock_symbol, "C");
    assert_eq!(client.pending_orders[0].quantity, 3);
    client.generate_with_draws(2, Some(&account), &prices, &mut allocator, 4, false, &vec![]);
    assert_eq!(client.pending_orders.len(), 1);
    // orders that were pending stay, and new ones follow them
    client.generate_with_draws(2, Some(&account), &prices, &mut allocator, 4, false, &one);
    assert_eq!(client.pending_orders.len(), 2);
    assert_eq!(client.pending_orders[1].order_id, 2);
}

#[test]
fn stopped_or_blind_round_places_nothing() {
    let prices = book();
    let account = holder();
    let other = ClientAccount::new(8, 300_000);
    let mut client = Client::with_capital(9, 300_000);
    let mut allocator = OrderIdAllocator::new();
    let given = four_draws();
    client.generate_with_draws(2, Some(&account), &prices, &mut allocator, 4, true, &given);
    client.generate_with_draws(2, None, &prices, &mut allocator, 4, false, &given);
    client.generate_with_draws(2, Some(&other), &prices, &mut allocator, 4, false, &given);
    client.generate_with_draws(2, Some(&account), &prices, &mut allocator, 0, false, &given);
    client.generate_with_draws(2, Some(&account), &PriceBook::new(), &mut allocator, 4, false, &given);
    assert!(client.pending_orders.is_empty());
    assert_eq!(client.broker_records.len(), 0);
    assert_eq!(allocator.allocate(), Some(1));
}

#[test]
fn random_round_on_an_untraded_account_fills_the_cap() {
    let mut rng = StdRng::from_entropy();
    // an account that holds nothing and can pay for anything buys every
    // symbol in turn, whatever is drawn
    let prices = book();
    let account = ClientAccount::new(9, 10_000_000);
    let mut allocator = OrderIdAllocator::new();
    for cap in 0..6usize {
        let mut client = Client::with_capital(9, 10_000_000);
        client.generate_order(&mut rng, 2, Some(&account), &prices, &mut allocator, cap, false);
        let symbols: Vec<&str> =
            client.pending_orders.iter().map(|o| o.stock_symbol.as_str()).collect();
        assert_eq!(symbols, ["A", "B", "C", "D"].iter().take(cap).cloned().collect::<Vec<_>>());
        assert_eq!(client.broker_records.len(), cap.min(4));
    }
}

#[test]
fn drawn_sets_have_the_length_asked_for() {
    let mut rng = StdRng::from_entropy();
    assert!(draw_orders(&mut rng, 0).is_empty());
    let seven = draw_orders(&mut rng, 7);
    assert_eq!(seven.len(), 7);
    for d in &seven {
        assert!(1 <= d.quantity && d.quantity <= 10);
        assert!(7_000 <= d.modifier && d.modifier <= 12_999);
    }
    let rounds = draw_rounds(&mut rng, 3, 5);
    assert_eq!(rounds.len(), 3);
    for round in &rounds {
        assert_eq!(round.len(), 5);
    }
    assert!(draw_rounds(&mut rng, 0, 5).is_empty());
    assert_eq!(draw_rounds(&mut rng, 2, 0), vec![vec![], vec![]]);
}

#[test]
fn client_round_at_the_broker_uses_its_account() {
    let mut broker = Broker::new(2, 2, 100_000);
    broker.update_price(&PriceUpdate { name: "A".to_string(), price: 10_000 });
    broker.update_price(&PriceUpdate { name: "B".to_string(), price: 30_000 });
    let mut allocator = OrderIdAllocator::starting_at(50).unwrap();
    let given = vec![draws(true, false, 4, 10_000), draws(true, true, 4, 8_000)];
    let orders = broker.process_client_orders_with(1, &mut allocator, 3, false, &given);
    let placed: Vec<_> = orders
        .iter()
        .map(|o| (o.order_id, o.client_id, o.stock_symbol.as_str(), o.price, o.quantity))
        .collect();
    // four of B at 240.00 cost 96,000: within the capital of 100,000
    assert_eq!(placed, vec![(50, 4, "A", 10_000, 4), (51, 4, "B", 24_000, 4)]);
    assert_eq!(broker.get_clients()[0].broker_records.len(), 0);
    assert_eq!(broker.get_clients()[1].broker_records.len(), 2);
    assert_eq!(broker.get_clients()[1].broker_records.records[1].take_profit, Some(33_000));
    assert!(broker.get_clients()[1].pending_orders.is_empty());
    assert_eq!(broker.get_accounts()[1].capital(), 100_000);
    assert!(broker.process_client_orders_with(1, &mut allocator, 3, true, &given).is_empty());
    assert_eq!(allocator.allocate(), Some(52));
}

#[test]
fn cycle_with_given_draws_goes_client_by_client() {
    let mut broker = Broker::new(1, 3, 100_000);
    broker.update_price(&PriceUpdate { name: "A".to_string(), price: 10_000 });
    broker.update_price(&PriceUpdate { name: "B".to_string(), price: 30_000 });
    let mut allocator = OrderIdAllocator::new();
    let given = vec![
        vec![draws(true, false, 1, 10_000), draws(true, false, 5, 10_000)],
        vec![draws(true, false, 2, 10_000)],
    ];
    let orders = broker.run_cycle_with(&mut allocator, 5, false, &given);
    let placed: Vec<_> = orders
        .iter()
        .map(|o| (o.order_id, o.client_id, o.stock_symbol.as_str(), o.quantity))
        .collect();
    // five of B cost more than the first client has; the third client
    // has no draws and places nothing
    assert_eq!(placed, vec![(1, 1, "A", 1), (2, 2, "A", 2)]);
    let records: Vec<usize> = broker.get_clients().iter().map(|c| c.broker_records.len()).collect();
    assert_eq!(records, vec![1, 1, 0]);
    assert!(broker.run_cycle_with(&mut allocator, 5, true, &given).is_empty());
    assert!(broker.run_cycle_with(&mut allocator, 0, false, &given).is_empty());
    assert!(broker.run_cycle_with(&mut allocator, 5, false, &vec![]).is_empty());
    assert_eq!(allocator.allocate(), Some(3));
}

#[test]
fn random_cycle_on_untraded_accounts_fills_every_cap() {
    let mut rng = StdRng::from_entropy();
    let mut broker = Broker::new(1, 3, 10_000_000);
    broker.update_price(&PriceUpdate { name: "A".to_string(), price: 10_000 });
    broker.update_price(&PriceUpdate { name: "B".to_string(), price: 30_000 });
    broker.update_price(&PriceUpdate { name: "C".to_string(), price: 100 });
    let mut allocator = OrderIdAllocator::new();
    let orders = broker.run_cycle(&mut rng, &mut allocator, 2, false);
    let placed: Vec<_> = orders.iter().map(|o| (o.client_id, o.stock_symbol.as_str())).collect();
    assert_eq!(placed, vec![(1, "A"), (1, "B"), (2, "A"), (2, "B"), (3, "A"), (3, "B")]);
    let one = broker.process_client_orders(&mut rng, 2, &mut allocator, 7, false);
    let placed: Vec<_> = one.iter().map(|o| (o.order_id, o.stock_symbol.as_str())).collect();
    assert_eq!(placed, vec![(7, "A"), (8, "B"), (9, "C")]);
}

fn stocks() -> Vec<PriceUpdate> {
    [("A", 10_000), ("B", 150), ("C", u64::MAX - 5)]
        .iter()
        .map(|(n, p)| PriceUpdate { name: n.to_string(), price: *p })
        .collect()
}

#[test]
fn steps_move_the_chosen_stocks() {
    let mut list = stocks();
    let published = apply_steps(&mut list, &vec![1, 0], &vec![-200, 999]);
    assert_eq!(
        published,
        vec![
            PriceUpdate { name: "B".to_string(), price: 100 },
            PriceUpdate { name: "A".to_string(), price: 10_999 },
        ]
    );
    let now: Vec<u64> = list.iter().map(|s| s.price).collect();
    assert_eq!(now, vec![10_999, 100, u64::MAX - 5]);
    let names: Vec<&str> = list.iter().map(|s| s.name.as_str()).collect();
    assert_eq!(names, vec!["A", "B", "C"]);
}

#[test]
fn step_beyond_sixty_four_bits_moves_nothing() {
    let mut list = stocks();
    let published = apply_steps(&mut list, &vec![2, 2], &vec![6, 5]);
    assert_eq!(published, vec![PriceUpdate { name: "C".to_string(), price: u64::MAX }]);
    assert_eq!(list[2].price, u64::MAX);
}

#[test]
fn steps_without_a_stock_or_a_change_are_passed_over() {
    let mut list = stocks();
    assert!(apply_steps(&mut list, &vec![3, 7], &vec![1, 1]).is_empty());
    assert!(apply_steps(&mut list, &vec![0, 1], &vec![]).is_empty());
    assert!(apply_steps(&mut list, &vec![], &vec![5]).is_empty());
    assert_eq!(list, stocks());
    // a stock that is named twice takes both steps, one after the other
    let published = apply_steps(&mut list, &vec![0, 9, 0], &vec![10, 10, -30, 500]);
    assert_eq!(
        published,
        vec![
            PriceUpdate { name: "A".to_string(), price: 10_010 },
            PriceUpdate { name: "A".to_string(), price: 9_980 },
        ]
    );
    assert_eq!(list[0].price, 9_980);
}

#[test]
fn draw_stands_for_a_centred_step() {
    assert_eq!(step_of(0, 1_000), -1_000);
    assert_eq!(step_of(999, 1_000), -1);
    assert_eq!(step_of(1_000, 1_000), 0);
    assert_eq!(step_of(1_999, 1_000), 999);
    assert_eq!(step_of(0, 1), -1);
    assert_eq!(step_of(1, 1), 0);
    assert_eq!(step_of(0, i64::MAX as u64), -i64::MAX);
    assert_eq!(step_of(u64::MAX - 2, i64::MAX as u64), i64::MAX - 1);
}

#[test]
fn drawn_steps_stay_within_reach() {
    let mut rng = StdRng::from_entropy();
    assert!(random_changes(&mut rng, 0).is_empty());
    let changes = random_changes(&mut rng, 300);
    assert_eq!(changes.len(), 300);
    for change in &changes {
        assert!(-1_000 <= *change && *change < 1_000);
    }
    assert!(changes.iter().any(|c| *c != changes[0]));
}
