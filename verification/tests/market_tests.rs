use market_sim::ledger::{ClientAccount, Holding, LedgerError};
use market_sim::models::{Order, OrderAction, OrderStatus, OrderType, PriceUpdate};
use market_sim::money::{average_after_buy, order_cost, round_half_up_div, scale_amount};
use market_sim::order_id::OrderIdAllocator;
use market_sim::performance::{client_performance, invested, ClientPerformance};
use market_sim::portfolio::Portfolio;
use market_sim::price_book::PriceBook;
use market_sim::price_feed::{random_change, update_round, walk_price, PRICE_FLOOR, STEP_REACH};
use market_sim::store::{find_client, update_client_portfolio, UpdateError};
use rand::rngs::StdRng;
use rand::SeedableRng;

#[test]
fn identifiers_rise_by_one() {
    let mut allocator = OrderIdAllocator::new();
    let mut last = 0;
    for expected in 1..=1_000u64 {
        let id = allocator.allocate().unwrap();
        assert_eq!(id, expected);
        assert!(id > last);
        last = id;
    }
}

#[test]
fn identifiers_run_out_rather_than_repeat() {
    assert!(OrderIdAllocator::starting_at(0).is_none());
    let mut allocator = OrderIdAllocator::starting_at(u64::MAX - 2).unwrap();
    assert_eq!(allocator.allocate(), Some(u64::MAX - 2));
    assert_eq!(allocator.allocate(), Some(u64::MAX - 1));
    assert_eq!(allocator.allocate(), None);
    assert_eq!(allocator.allocate(), None);
}

#[test]
fn division_rounds_halves_up() {
    assert_eq!(round_half_up_div(0, 7), 0);
    assert_eq!(round_half_up_div(7, 2), 4);
    assert_eq!(round_half_up_div(5, 2), 3);
    assert_eq!(round_half_up_div(10, 4), 3);
    assert_eq!(round_half_up_div(9, 4), 2);
    assert_eq!(round_half_up_div(11, 4), 3);
    assert_eq!(round_half_up_div(u128::MAX, 1), u128::MAX);
    assert_eq!(round_half_up_div(u128::MAX, u128::MAX), 1);
    assert_eq!(round_half_up_div(u128::MAX - 1, u128::MAX), 1);
    assert_eq!(round_half_up_div(u128::MAX / 2, u128::MAX), 0);
    assert_eq!(round_half_up_div(u128::MAX / 2 + 1, u128::MAX), 1);
}

#[test]
fn amounts_scale_by_a_ratio() {
    assert_eq!(scale_amount(9_800, 102, 100), Some(9_996));
    assert_eq!(scale_amount(10_000, 9_800, 10_000), Some(9_800));
    assert_eq!(scale_amount(1, 1, 2), Some(1));
    assert_eq!(scale_amount(1, 1, 3), Some(0));
    assert_eq!(scale_amount(5, 7, 0), None);
    assert_eq!(scale_amount(u64::MAX, 1, 1), Some(u64::MAX));
    assert_eq!(scale_amount(u64::MAX, 2, 1), None);
    assert_eq!(scale_amount(u64::MAX, u64::MAX, u64::MAX), Some(u64::MAX));
}

#[test]
fn cost_and_average_are_exact() {
    assert_eq!(order_cost(9_996, 5), 49_980);
    assert_eq!(order_cost(u64::MAX, u64::MAX), u64::MAX as u128 * u64::MAX as u128);
    assert_eq!(average_after_buy(0, 0, 9_996, 5), 9_996);
    assert_eq!(average_after_buy(10_000, 10, 12_000, 30), 11_500);
    assert_eq!(average_after_buy(100, 1, 101, 2), 101);
    assert_eq!(average_after_buy(u64::MAX, u64::MAX - 1, u64::MAX, 1), u64::MAX);
}

#[test]
fn price_book_keeps_the_last_price_of_each_symbol() {
    let mut book = PriceBook::new();
    assert_eq!(book.len(), 0);
    assert_eq!(book.price_of("AAPL"), None);
    book.update("AAPL", 10_000);
    book.update("MSFT", 20_000);
    book.update("AAPL", 9_900);
    book.apply(&PriceUpdate { name: "GOOG".to_string(), price: 0 });
    book.apply(&PriceUpdate { name: "MSFT".to_string(), price: 20_001 });
    assert_eq!(book.len(), 3);
    assert_eq!(book.price_of("AAPL"), Some(9_900));
    assert_eq!(book.price_of("MSFT"), Some(20_001));
    assert_eq!(book.price_of("GOOG"), Some(0));
    assert_eq!(book.price_of("aapl"), None);
    // symbols stay in the order in which they were first seen
    assert_eq!(book.symbol_at(0), "AAPL");
    assert_eq!(book.symbol_at(1), "MSFT");
    assert_eq!(book.symbol_at(2), "GOOG");
    assert_eq!(book.price_at(0), 9_900);
    assert_eq!(book.price_at(1), 20_001);
}

#[test]
fn portfolio_counts_shares() {
    let mut portfolio = Portfolio::new();
    assert_eq!(portfolio.get_quantity("AAPL"), 0);
    assert!(portfolio.can_sell("AAPL", 0));
    assert!(!portfolio.can_sell("AAPL", 1));
    assert!(portfolio.update_holdings("AAPL", 10));
    assert!(portfolio.update_holdings("AAPL", 5));
    assert!(portfolio.update_holdings("MSFT", 1));
    assert_eq!(portfolio.get_quantity("AAPL"), 15);
    assert!(portfolio.update_holdings("AAPL", -6));
    assert_eq!(portfolio.get_quantity("AAPL"), 9);
    assert!(portfolio.can_sell("AAPL", 9));
    assert!(!portfolio.can_sell("AAPL", 10));
    assert!(portfolio.update_holdings("GOOG", i64::MAX));
    assert_eq!(portfolio.get_quantity("GOOG"), i64::MAX as u64);
    assert!(portfolio.update_holdings("GOOG", i64::MIN + 1));
    assert_eq!(portfolio.get_quantity("GOOG"), 0);
    assert_eq!(portfolio.get_quantity("MSFT"), 1);
    portfolio.remove_stock("MSFT");
    assert_eq!(portfolio.get_quantity("MSFT"), 0);
}

#[test]
fn sale_beyond_the_holding_is_not_applied() {
    let mut portfolio = Portfolio::new();
    assert!(portfolio.update_holdings("AAPL", 3));
    assert!(!portfolio.update_holdings("AAPL", -5));
    assert_eq!(portfolio.get_quantity("AAPL"), 3);
    assert!(portfolio.update_holdings("AAPL", 6));
    assert!(!portfolio.update_holdings("AAPL", -10));
    assert_eq!(portfolio.get_quantity("AAPL"), 9);
    assert!(portfolio.can_sell("AAPL", 9));
    // nothing is held of a symbol that was never bought
    assert!(!portfolio.update_holdings("GOOG", -1));
    assert!(!portfolio.update_holdings("GOOG", i64::MIN));
    assert_eq!(portfolio.get_quantity("GOOG"), 0);
    // a sale of all that is held is applied and leaves nothing
    assert!(portfolio.update_holdings("AAPL", -9));
    assert_eq!(portfolio.get_quantity("AAPL"), 0);
    assert!(portfolio.update_holdings("AAPL", 0));
}

#[test]
fn update_goes_to_the_first_account_of_the_client() {
    let mut accounts = vec![
        ClientAccount::new(1, 10_000),
        ClientAccount::new(2, 10_000),
        ClientAccount::new(2, 50_000),
    ];
    assert_eq!(find_client(&accounts, 2), Some(1));
    assert_eq!(find_client(&accounts, 3), None);
    assert_eq!(update_client_portfolio(&mut accounts, 2, "AAPL", 2, true, 1_000), Ok(()));
    assert_eq!(accounts[0].capital(), 10_000);
    assert_eq!(accounts[1].capital(), 8_000);
    assert_eq!(accounts[1].holding_of("AAPL"), Some(Holding { quantity: 2, average_cost: 1_000 }));
    assert_eq!(accounts[2].capital(), 50_000);
    assert_eq!(update_client_portfolio(&mut accounts, 2, "AAPL", 1, false, 1_500), Ok(()));
    assert_eq!(accounts[1].capital(), 9_500);
    assert_eq!(accounts[1].quantity_of("AAPL"), 1);
}

#[test]
fn update_that_is_not_applied_changes_nothing() {
    let mut accounts = vec![ClientAccount::new(1, 10_000)];
    assert_eq!(
        update_client_portfolio(&mut accounts, 5, "AAPL", 2, true, 1_000),
        Err(UpdateError::ClientNotFound)
    );
    assert_eq!(
        update_client_portfolio(&mut accounts, 1, "AAPL", 2, true, 5_001),
        Err(UpdateError::Refused(LedgerError::InsufficientCapital))
    );
    assert_eq!(
        update_client_portfolio(&mut accounts, 1, "AAPL", 2, false, 1_000),
        Err(UpdateError::Refused(LedgerError::NoPosition))
    );
    assert_eq!(accounts[0].capital(), 10_000);
    assert_eq!(accounts[0].holdings_len(), 0);
    let mut none: Vec<ClientAccount> = Vec::new();
    assert_eq!(
        update_client_portfolio(&mut none, 1, "AAPL", 2, true, 1),
        Err(UpdateError::ClientNotFound)
    );
}

#[test]
fn report_adds_up_the_account() {
    let mut account = ClientAccount::new(4, 2_000_000);
    assert_eq!(
        client_performance(&account, 2_000_000),
        Some(ClientPerformance {
            client_id: 4,
            total_investment: 0,
            remaining_capital: 2_000_000,
            total_transactions: 0,
            total_value: 2_000_000,
            pnl: 0,
        })
    );
    assert_eq!(account.apply_buy("A", 10, 10_000), Ok(()));
    assert_eq!(account.apply_buy("B", 5, 20_000), Ok(()));
    assert_eq!(account.apply_sell("A", 4, 12_500), Ok(()));
    assert_eq!(invested(&account), Some(160_000));
    assert_eq!(
        client_performance(&account, 2_000_000),
        Some(ClientPerformance {
            client_id: 4,
            total_investment: 160_000,
            remaining_capital: 1_850_000,
            total_transactions: 3,
            total_value: 2_010_000,
            pnl: 10_000,
        })
    );
    assert_eq!(client_performance(&account, 2_500_000).unwrap().pnl, -490_000);
}

#[test]
fn report_is_absent_beyond_its_limit() {
    let mut account = ClientAccount::restore(1, u64::MAX, 0, 0);
    assert!(account.restore_holding("A", Holding { quantity: u64::MAX, average_cost: u64::MAX }));
    assert!(invested(&account).is_none());
    assert!(client_performance(&account, 0).is_none());
    let mut fits = ClientAccount::restore(1, u64::MAX, u64::MAX, u64::MAX);
    assert!(fits.restore_holding("A", Holding { quantity: u64::MAX, average_cost: 1 }));
    let report = client_performance(&fits, 0).unwrap();
    assert_eq!(report.total_investment, u64::MAX as u128);
    assert_eq!(report.total_value, 2 * (u64::MAX as u128));
    assert_eq!(report.total_transactions, 2 * (u64::MAX as u128));
    assert_eq!(report.pnl, 2 * (u64::MAX as i128));
}

#[test]
fn price_walk_stops_at_the_floor() {
    assert_eq!(walk_price(10_000, 250, 100), Some(10_250));
    assert_eq!(walk_price(10_000, -250, 100), Some(9_750));
    assert_eq!(walk_price(10_000, 0, 100), Some(10_000));
    assert_eq!(walk_price(500, -400, 100), Some(100));
    assert_eq!(walk_price(500, -401, 100), Some(100));
    assert_eq!(walk_price(500, -999, 100), Some(100));
    assert_eq!(walk_price(50, 10, 100), Some(100));
    assert_eq!(walk_price(50, 60, 100), Some(110));
    assert_eq!(walk_price(0, i64::MIN, 0), Some(0));
    assert_eq!(walk_price(u64::MAX, i64::MIN, 0), Some(u64::MAX - (1u64 << 63)));
    assert_eq!(walk_price(u64::MAX, 1, 0), None);
    assert_eq!(walk_price(u64::MAX - 1, 1, 0), Some(u64::MAX));
}

#[test]
fn random_steps_stay_within_reach_and_vary() {
    let mut rng = StdRng::from_entropy();
    let mut seen = std::collections::HashSet::new();
    let mut below = false;
    let mut above = false;
    for _ in 0..500 {
        let change = random_change(&mut rng, STEP_REACH);
        assert!(-1_000 <= change && change < 1_000);
        seen.insert(change);
        below |= change < 0;
        above |= change >= 0;
    }
    assert!(seen.len() > 1);
    assert!(below && above);
    for _ in 0..50 {
        let change = random_change(&mut rng, 1);
        assert!(change == -1 || change == 0);
    }
}

#[test]
fn round_moves_two_to_four_stocks() {
    let mut rng = StdRng::from_entropy();
    let names = ["A", "B", "C", "D", "E", "F"];
    let mut counts = std::collections::HashSet::new();
    for _ in 0..200 {
        let mut stocks: Vec<PriceUpdate> =
            names.iter().map(|n| PriceUpdate { name: n.to_string(), price: 10_000 }).collect();
        let published = update_round(&mut rng, &mut stocks);
        assert!(2 <= published.len() && published.len() <= 4);
        counts.insert(published.len());
        assert_eq!(stocks.len(), 6);
        let mut moved = Vec::new();
        for (stock, name) in stocks.iter().zip(names.iter()) {
            assert_eq!(stock.name, *name);
            assert!(stock.price >= PRICE_FLOOR);
            assert!(9_000 <= stock.price && stock.price < 11_000);
        }
        for update in &published {
            let stock = stocks.iter().find(|s| s.name == update.name).unwrap();
            assert_eq!(stock.price, update.price);
            assert!(!moved.contains(&update.name));
            moved.push(update.name.clone());
        }
        for stock in &stocks {
            if !moved.contains(&stock.name) {
                assert_eq!(stock.price, 10_000);
            }
        }
    }
    assert!(counts.len() > 1);
}

#[test]
fn round_on_few_stocks_moves_what_there_is() {
    let mut rng = StdRng::from_entropy();
    let mut none: Vec<PriceUpdate> = Vec::new();
    assert!(update_round(&mut rng, &mut none).is_empty());
    let mut one = vec![PriceUpdate { name: "A".to_string(), price: 150 }];
    for _ in 0..50 {
        let published = update_round(&mut rng, &mut one);
        assert_eq!(published.len(), 1);
        assert_eq!(published[0], one[0]);
        assert!(one[0].price >= PRICE_FLOOR);
    }
}

#[test]
fn order_copy_is_equal() {
    let order = Order {
        broker_id: 1,
        client_id: 2,
        order_id: 3,
        stock_symbol: "NVDA".to_string(),
        order_type: OrderType::Market,
        order_action: OrderAction::Sell,
        price: 4,
        quantity: 5,
        status: OrderStatus::Rejected,
    };
    assert_eq!(order.duplicate(), order);
}
