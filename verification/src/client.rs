//! A trading client: its account, the orders it has placed and not yet
//! handed on, and the advisory price bands it recorded with its buys.

use vstd::prelude::*;
use crate::generator::{all_wf, build_candidate, candidate, draw_orders, OrderDraws};
use crate::ledger::{AccountView, ClientAccount};
use crate::models::{Order, OrderAction, OrderView, PLACEHOLDER_ORDER_ID};
use crate::money::{scale_amount, scaled};
use crate::order_id::OrderIdAllocator;
use crate::price_book::PriceBook;
use crate::priority::{considered_before, is_priority_order, priority_of, priority_order};

verus! {

/// The capital a client starts with unless told otherwise: 20,000.00.
pub const DEFAULT_INITIAL_CAPITAL: u64 = 2_000_000;

/// The prices at which a buy order would be sold to stop a loss or to
/// take a profit. A band is absent where it does not fit in 64 bits.
#[derive(Clone, Copy, Debug, PartialEq, Eq)]
pub struct BrokerRecord {
    pub client_id: u64,
    pub order_id: u64,
    pub stop_loss: Option<u64>,
    pub take_profit: Option<u64>,
}

/// The records of the buy orders that are still pending.
pub struct BrokerRecords {
    pub records: Vec<BrokerRecord>,
}

/// `percent` percent of the market price, rounded half up, where it fits
/// in 64 bits.
pub open spec fn price_band(market_price: nat, percent: nat) -> Option<u64> {
    if scaled(market_price, percent, 100) <= u64::MAX {
        Some(scaled(market_price, percent, 100) as u64)
    } else {
        None
    }
}

/// The record for a buy order placed while the market stood at
/// `market_price`: ten percent below it to stop a loss, ten percent above
/// it to take a profit.
pub open spec fn record_for(order: OrderView, market_price: nat) -> BrokerRecord {
    BrokerRecord {
        client_id: order.client_id,
        order_id: order.order_id,
        stop_loss: price_band(market_price, 90),
        take_profit: price_band(market_price, 110),
    }
}

/// The records that exist for `orders`: one for each buy, in order.
pub open spec fn records_of(orders: Seq<OrderView>, prices: Map<Seq<char>, u64>) -> Seq<BrokerRecord>
    decreases orders.len(),
{
    if orders.len() == 0 {
        Seq::empty()
    } else if orders.last().order_action == OrderAction::Buy {
        records_of(orders.drop_last(), prices).push(
            record_for(orders.last(), prices[orders.last().stock_symbol] as nat),
        )
    } else {
        records_of(orders.drop_last(), prices)
    }
}

/// The records that are left once the order `order_id` is settled: all
/// but its own, in their order.
pub open spec fn without_order(records: Seq<BrokerRecord>, order_id: u64) -> Seq<BrokerRecord> {
    records.filter(|record: BrokerRecord| record.order_id != order_id)
}

/// The contents of a list of orders.
pub open spec fn order_views(orders: Seq<Order>) -> Seq<OrderView> {
    Seq::new(orders.len(), |i: int| orders[i]@)
}

impl View for BrokerRecords {
    type V = Seq<BrokerRecord>;

    open spec fn view(&self) -> Seq<BrokerRecord> {
        self.records@
    }
}

impl BrokerRecords {
    /// No records.
    pub fn new() -> (records: Self)
        ensures
            records@ == Seq::<BrokerRecord>::empty(),
    {
        BrokerRecords { records: Vec::new() }
    }

    /// How many records there are.
    pub fn len(&self) -> (n: usize)
        ensures
            n == self@.len(),
    {
        self.records.len()
    }

    /// Adds the record of a buy order placed while the market stood at
    /// `market_price`.
    pub fn record_buy(&mut self, client_id: u64, order_id: u64, market_price: u64)
        ensures
            final(self)@ == old(self)@.push(
                BrokerRecord {
                    client_id,
                    order_id,
                    stop_loss: price_band(market_price as nat, 90),
                    take_profit: price_band(market_price as nat, 110),
                },
            ),
    {
        let stop_loss: Option<u64> = scale_amount(market_price, 90, 100);
        let take_profit: Option<u64> = scale_amount(market_price, 110, 100);
        self.records.push(BrokerRecord { client_id, order_id, stop_loss, take_profit });
    }

    /// Drops the records of the order `order_id`, which is no longer
    /// pending. The other records stay, in their order.
    pub fn remove_order(&mut self, order_id: u64)
        ensures
            final(self)@ == without_order(old(self)@, order_id),
    {
        let ghost keep = |record: BrokerRecord| record.order_id != order_id;
        let mut kept: Vec<BrokerRecord> = Vec::new();
        let mut i: usize = 0;
        while i < self.records.len()
            invariant
                i <= self.records@.len(),
                keep == (|record: BrokerRecord| record.order_id != order_id),
                kept@ == self.records@.take(i as int).filter(keep),
            decreases self.records@.len() - i,
        {
            let record: BrokerRecord = self.records[i];
            proof {
                assert(self.records@.take(i + 1).drop_last() =~= self.records@.take(i as int));
                assert(self.records@.take(i + 1).last() == record);
                reveal(Seq::filter);
            }
            if record.order_id != order_id {
                kept.push(record);
            }
            i += 1;
        }
        proof {
            assert(self.records@.take(self.records@.len() as int) =~= self.records@);
        }
        self.records = kept;
    }
}

/// A simulated trading client: who it is, what it started with, the
/// orders it has placed and not yet handed on, and the records of its
/// pending buys. Its account is kept by its broker.
pub struct Client {
    pub id: u64,
    pub initial_capital: u64,
    pub pending_orders: Vec<Order>,
    pub broker_records: BrokerRecords,
}

/// The order that is placed for a candidate: the candidate with the next
/// identifier. Nothing is placed where the account is another client's,
/// where there is no candidate, or where no identifier is left.
pub open spec fn placed_order(
    account: AccountView,
    client_id: u64,
    broker_id: u64,
    symbol: Seq<char>,
    market_price: nat,
    draws: OrderDraws,
    next_id: nat,
) -> Option<OrderView> {
    if account.client_id != client_id {
        None
    } else {
        match candidate(account, broker_id, symbol, market_price, draws) {
            Some(order) => if next_id < u64::MAX {
                Some(OrderView { order_id: next_id as u64, ..order })
            } else {
                None
            },
            None => None,
        }
    }
}

/// Whether `order` is one that the client may place for its symbol at the
/// book's price: the candidate of some draws, under an identifier of its
/// own.
pub open spec fn admissible(
    account: AccountView,
    broker_id: u64,
    prices: Map<Seq<char>, u64>,
    order: OrderView,
) -> bool {
    &&& prices.contains_key(order.stock_symbol)
    &&& exists|draws: OrderDraws|
        draws.wf() && #[trigger] candidate(
            account,
            broker_id,
            order.stock_symbol,
            prices[order.stock_symbol] as nat,
            draws,
        ) == Some(OrderView { order_id: PLACEHOLDER_ORDER_ID, ..order })
}

/// The content of the snapshot of a client's account, where there is one.
pub open spec fn snapshot_view(snapshot: Option<&ClientAccount>) -> Option<AccountView> {
    match snapshot {
        Some(account) => Some(account@),
        None => None,
    }
}

/// Whether a round of order generation can go by `snapshot`: there is
/// one, and it is the account of the client `client_id`.
pub open spec fn usable(snapshot: Option<AccountView>, client_id: u64) -> bool {
    snapshot is Some && snapshot->0.client_id == client_id
}

/// Whether the orders of `orders` from position `from` on come in the
/// order in which the client considers their symbols, no symbol twice.
pub open spec fn in_priority_order(
    account: AccountView,
    symbols: Seq<Seq<char>>,
    orders: Seq<OrderView>,
    from: int,
) -> bool {
    forall|j: int, k: int|
        from <= j < k < orders.len() ==> considered_before(
            account,
            symbols,
            symbols.index_of((#[trigger] orders[j]).stock_symbol),
            symbols.index_of((#[trigger] orders[k]).stock_symbol),
        )
}

/// What a round of order generation works on: the orders pending, the
/// records of pending buys, and the identifier to issue next.
pub struct RoundView {
    pub pending: Seq<OrderView>,
    pub records: Seq<BrokerRecord>,
    pub next_id: nat,
}

/// What a round of order generation goes by: the client and its account,
/// the broker, the book's symbols and prices, and the cap on the orders
/// of one round.
pub struct RoundSetting {
    pub account: AccountView,
    pub client_id: u64,
    pub broker_id: u64,
    pub symbols: Seq<Seq<char>>,
    pub prices: Map<Seq<char>, u64>,
    pub max_orders: nat,
}

/// The round after one attempt, for `symbol` with these draws: the order
/// that is placed, if one is, joins the pending orders and takes the
/// next identifier, and a buy gets its record.
pub open spec fn attempt(
    state: RoundView,
    setting: RoundSetting,
    symbol: Seq<char>,
    draws: OrderDraws,
) -> RoundView {
    match placed_order(
        setting.account,
        setting.client_id,
        setting.broker_id,
        symbol,
        setting.prices[symbol] as nat,
        draws,
        state.next_id,
    ) {
        Some(order) => RoundView {
            pending: state.pending.push(order),
            records: if order.order_action == OrderAction::Buy {
                state.records.push(record_for(order, setting.prices[symbol] as nat))
            } else {
                state.records
            },
            next_id: state.next_id + 1,
        },
        None => state,
    }
}

/// The round after the first `attempts` symbols of `order` had their
/// turn, the `i`-th with the `i`-th of `draws`. A symbol whose turn comes
/// when the round has placed `max_orders` orders is passed over.
pub open spec fn after_attempts(
    start: RoundView,
    setting: RoundSetting,
    order: Seq<usize>,
    draws: Seq<OrderDraws>,
    attempts: nat,
) -> RoundView
    decreases attempts,
{
    if attempts == 0 {
        start
    } else {
        let before = after_attempts(start, setting, order, draws, (attempts - 1) as nat);
        if before.pending.len() >= start.pending.len() + setting.max_orders {
            before
        } else {
            attempt(
                before,
                setting,
                setting.symbols[order[attempts - 1] as int],
                draws[attempts - 1],
            )
        }
    }
}

/// How many symbols have their turn in a round: all of them, or as many
/// as there are draws, if those are fewer.
pub open spec fn turns(setting: RoundSetting, draws: Seq<OrderDraws>) -> nat {
    if draws.len() <= setting.symbols.len() {
        draws.len()
    } else {
        setting.symbols.len()
    }
}

/// The round after it is over. The symbols have their turn in the order
/// in which the client considers them, each with its own draws, until
/// the cap is reached. Nothing happens in a round that is stopped or for
/// which there is no snapshot of the client's own account.
pub open spec fn round_result(
    start: RoundView,
    snapshot: Option<AccountView>,
    setting: RoundSetting,
    stop_signal: bool,
    draws: Seq<OrderDraws>,
) -> RoundView {
    if stop_signal || !usable(snapshot, setting.client_id) {
        start
    } else {
        after_attempts(
            start,
            setting,
            priority_of(setting.account, setting.symbols),
            draws,
            turns(setting, draws),
        )
    }
}

/// Once the cap is reached, further turns change nothing.
pub proof fn lemma_cap_ends_round(
    start: RoundView,
    setting: RoundSetting,
    order: Seq<usize>,
    draws: Seq<OrderDraws>,
    reached: nat,
    attempts: nat,
)
    requires
        reached <= attempts,
        after_attempts(start, setting, order, draws, reached).pending.len() >= start.pending.len()
            + setting.max_orders,
    ensures
        after_attempts(start, setting, order, draws, attempts) == after_attempts(
            start,
            setting,
            order,
            draws,
            reached,
        ),
    decreases attempts,
{
    if attempts > reached {
        lemma_cap_ends_round(start, setting, order, draws, reached, (attempts - 1) as nat);
    }
}

impl Client {
    /// A client that started with the default capital and has placed
    /// nothing.
    pub fn new(id: u64) -> (client: Self)
        ensures
            client.id == id,
            client.initial_capital == DEFAULT_INITIAL_CAPITAL,
            client.pending_orders@.len() == 0,
            client.broker_records@.len() == 0,
    {
        Client::with_capital(id, DEFAULT_INITIAL_CAPITAL)
    }

    /// A client that started with `capital` and has placed nothing.
    pub fn with_capital(id: u64, capital: u64) -> (client: Self)
        ensures
            client.id == id,
            client.initial_capital == capital,
            client.pending_orders@.len() == 0,
            client.broker_records@.len() == 0,
    {
        Client {
            id,
            initial_capital: capital,
            pending_orders: Vec::new(),
            broker_records: BrokerRecords::new(),
        }
    }

    /// Places the order that these draws give for `symbol`, if they give
    /// one: it gets the next identifier and joins the pending orders, and
    /// a buy gets its record. Where the account is another client's, the
    /// draws give no order, or no identifier is left, nothing changes.
    /// The account is only read.
    pub fn place_order(
        &mut self,
        broker_id: u64,
        account: &ClientAccount,
        symbol: &str,
        market_price: u64,
        draws: &OrderDraws,
        allocator: &mut OrderIdAllocator,
    ) -> (placed: bool)
        requires
            account.wf(),
            old(allocator).wf(),
        ensures
            final(allocator).wf(),
            final(self).id == old(self).id,
            final(self).initial_capital == old(self).initial_capital,
            match placed_order(
                account@,
                old(self).id,
                broker_id,
                symbol@,
                market_price as nat,
                *draws,
                old(allocator).next_id(),
            ) {
                Some(order) => {
                    &&& placed
                    &&& order_views(final(self).pending_orders@) == order_views(
                        old(self).pending_orders@,
                    ).push(order)
                    &&& final(allocator).next_id() == old(allocator).next_id() + 1
                    &&& final(self).broker_records@ == if order.order_action == OrderAction::Buy {
                        old(self).broker_records@.push(record_for(order, market_price as nat))
                    } else {
                        old(self).broker_records@
                    }
                },
                None => {
                    &&& !placed
                    &&& final(self).pending_orders == old(self).pending_orders
                    &&& final(self).broker_records == old(self).broker_records
                    &&& final(allocator).next_id() == old(allocator).next_id()
                },
            },
    {
        if account.client_id() != self.id {
            return false;
        }
        let mut order: Order = match build_candidate(
            account,
            broker_id,
            symbol,
            market_price,
            draws,
        ) {
            Some(order) => order,
            None => {
                return false;
            },
        };
        let id: u64 = match allocator.allocate() {
            Some(id) => id,
            None => {
                return false;
            },
        };
        order.order_id = id;
        match order.order_action {
            OrderAction::Buy => {
                self.broker_records.record_buy(order.client_id, id, market_price);
            },
            _ => {},
        }
        let ghost before = order_views(self.pending_orders@);
        let ghost placed = order@;
        self.pending_orders.push(order);
        proof {
            assert(order_views(self.pending_orders@) =~= before.push(placed));
        }
        true
    }

    /// One round of order generation with given draws, by the snapshot of
    /// the client's account. The client goes through the symbols of the
    /// book, least held first; the `i`-th symbol to have its turn gets
    /// the `i`-th of `draws`, and the order that these give, if they give
    /// one, is placed. The round ends when `max_orders` orders are
    /// placed, or the symbols or the draws are used up. Where there is no
    /// snapshot, or it is another client's, the client sits the round
    /// out; with `stop_signal` set it places nothing either.
    ///
    /// The first clause says all of this at once; the others spell out
    /// what follows from it for the orders that are added.
    pub fn generate_with_draws(
        &mut self,
        broker_id: u64,
        snapshot: Option<&ClientAccount>,
        prices: &PriceBook,
        allocator: &mut OrderIdAllocator,
        max_orders: usize,
        stop_signal: bool,
        draws: &Vec<OrderDraws>,
    )
        requires
            snapshot is Some ==> snapshot->0.wf(),
            old(allocator).wf(),
            prices.wf(),
        ensures
            (RoundView {
                pending: order_views(final(self).pending_orders@),
                records: final(self).broker_records@,
                next_id: final(allocator).next_id(),
            }) == round_result(
                RoundView {
                    pending: order_views(old(self).pending_orders@),
                    records: old(self).broker_records@,
                    next_id: old(allocator).next_id(),
                },
                snapshot_view(snapshot),
                RoundSetting {
                    account: snapshot_view(snapshot)->0,
                    client_id: old(self).id,
                    broker_id,
                    symbols: prices.symbols(),
                    prices: prices@,
                    max_orders: max_orders as nat,
                },
                stop_signal,
                draws@,
            ),
            final(allocator).wf(),
            final(self).id == old(self).id,
            final(self).initial_capital == old(self).initial_capital,
            old(self).pending_orders@.len() <= final(self).pending_orders@.len(),
            final(self).pending_orders@.len() - old(self).pending_orders@.len() <= max_orders,
            final(self).pending_orders@.len() - old(self).pending_orders@.len()
                <= prices.symbols().len(),
            final(self).pending_orders@.len() - old(self).pending_orders@.len() <= draws@.len(),
            stop_signal || !usable(snapshot_view(snapshot), old(self).id) ==> old(
                self,
            ).pending_orders@.len() == final(self).pending_orders@.len(),
            order_views(final(self).pending_orders@).take(
                old(self).pending_orders@.len() as int,
            ) == order_views(old(self).pending_orders@),
            final(allocator).next_id() + old(self).pending_orders@.len() == old(
                allocator,
            ).next_id() + final(self).pending_orders@.len(),
            forall|k: int|
                old(self).pending_orders@.len() <= k < final(self).pending_orders@.len() ==> (
                #[trigger] order_views(final(self).pending_orders@)[k]).order_id == old(
                    allocator,
                ).next_id() + (k - old(self).pending_orders@.len()) && order_views(
                    final(self).pending_orders@,
                )[k].client_id == old(self).id,
            all_wf(draws@) ==> forall|k: int|
                old(self).pending_orders@.len() <= k < final(self).pending_orders@.len()
                    ==> admissible(
                    snapshot_view(snapshot)->0,
                    broker_id,
                    prices@,
                    #[trigger] order_views(final(self).pending_orders@)[k],
                ),
            in_priority_order(
                snapshot_view(snapshot)->0,
                prices.symbols(),
                order_views(final(self).pending_orders@),
                old(self).pending_orders@.len() as int,
            ),
            final(self).broker_records@ == old(self).broker_records@ + records_of(
                order_views(final(self).pending_orders@).skip(
                    old(self).pending_orders@.len() as int,
                ),
                prices@,
            ),
    {
        let ghost start = order_views(self.pending_orders@);
        let ghost start_records = self.broker_records@;
        let ghost first_id = allocator.next_id();
        let ghost opening = RoundView {
            pending: start,
            records: start_records,
            next_id: first_id,
        };
        let ghost nice = all_wf(draws@);
        proof {
            assert(order_views(self.pending_orders@).take(start.len() as int) =~= start);
            assert(order_views(self.pending_orders@).skip(start.len() as int) =~= Seq::<
                OrderView,
            >::empty());
            assert(self.broker_records@ =~= start_records + records_of(
                Seq::<OrderView>::empty(),
                prices@,
            ));
        }
        let account: &ClientAccount = match snapshot {
            Some(account) => account,
            None => {
                return ;
            },
        };
        if stop_signal || account.client_id() != self.id {
            return ;
        }
        let ghost setting = RoundSetting {
            account: account@,
            client_id: self.id,
            broker_id,
            symbols: prices.symbols(),
            prices: prices@,
            max_orders: max_orders as nat,
        };
        let order: Vec<usize> = priority_order(account, prices);
        let mut generated: usize = 0;
        let mut k: usize = 0;
        let ghost slots: Seq<int> = Seq::empty();
        proof {
            prices.lemma_symbols();
        }
        while k < order.len() && k < draws.len() && generated < max_orders
            invariant
                account.wf(),
                allocator.wf(),
                prices.wf(),
                prices.symbols().no_duplicates(),
                snapshot_view(snapshot) == Some(account@),
                self.id == old(self).id,
                account@.client_id == self.id,
                self.initial_capital == old(self).initial_capital,
                start == order_views(old(self).pending_orders@),
                start_records == old(self).broker_records@,
                first_id == old(allocator).next_id(),
                opening == (RoundView { pending: start, records: start_records, next_id: first_id }),
                setting == (RoundSetting {
                    account: account@,
                    client_id: self.id,
                    broker_id,
                    symbols: prices.symbols(),
                    prices: prices@,
                    max_orders: max_orders as nat,
                }),
                nice == all_wf(draws@),
                (RoundView {
                    pending: order_views(self.pending_orders@),
                    records: self.broker_records@,
                    next_id: allocator.next_id(),
                }) == after_attempts(opening, setting, order@, draws@, k as nat),
                is_priority_order(account@, prices.symbols(), order@),
                generated <= k <= order@.len(),
                k <= draws@.len(),
                generated <= max_orders,
                self.pending_orders@.len() == start.len() + generated,
                order_views(self.pending_orders@).take(start.len() as int) == start,
                allocator.next_id() == first_id + generated,
                forall|j: int|
                    start.len() <= j < self.pending_orders@.len() ==> (#[trigger] order_views(
                        self.pending_orders@,
                    )[j]).order_id == first_id + (j - start.len()) && order_views(
                        self.pending_orders@,
                    )[j].client_id == self.id,
                nice ==> forall|j: int|
                    start.len() <= j < self.pending_orders@.len() ==> admissible(
                        account@,
                        broker_id,
                        prices@,
                        #[trigger] order_views(self.pending_orders@)[j],
                    ),
                slots.len() == generated,
                forall|j: int|
                    0 <= j < slots.len() ==> 0 <= #[trigger] slots[j] < k && order@[slots[j]]
                        == prices.symbols().index_of(
                        order_views(self.pending_orders@)[start.len() + j].stock_symbol,
                    ),
                in_priority_order(
                    account@,
                    prices.symbols(),
                    order_views(self.pending_orders@),
                    start.len() as int,
                ),
                self.broker_records@ == start_records + records_of(
                    order_views(self.pending_orders@).skip(start.len() as int),
                    prices@,
                ),
            decreases order@.len() - k,
        {
            let at: usize = order[k];
            let symbol = prices.symbol_at(at);
            let market_price: u64 = prices.price_at(at);
            let ghost before = order_views(self.pending_orders@);
            let ghost records_before = self.broker_records@;
            let ghost next = allocator.next_id();
            let ghost state = RoundView { pending: before, records: records_before, next_id: next };
            let placed: bool = self.place_order(
                broker_id,
                account,
                symbol.as_str(),
                market_price,
                &draws[k],
                allocator,
            );
            proof {
                assert(state == after_attempts(opening, setting, order@, draws@, k as nat));
                assert(state.pending.len() < opening.pending.len() + setting.max_orders);
                assert(setting.symbols[order@[k as int] as int] == symbol@);
                assert(setting.prices[symbol@] == market_price);
                assert(after_attempts(opening, setting, order@, draws@, (k + 1) as nat) == attempt(
                    state,
                    setting,
                    symbol@,
                    draws@[k as int],
                ));
            }
            if placed {
                proof {
                    let now = order_views(self.pending_orders@);
                    let made = placed_order(
                        account@,
                        self.id,
                        broker_id,
                        symbol@,
                        market_price as nat,
                        draws@[k as int],
                        next,
                    )->0;
                    assert(now == before.push(made));
                    let found = candidate(
                        account@,
                        broker_id,
                        symbol@,
                        market_price as nat,
                        draws@[k as int],
                    )->0;
                    assert(made == OrderView { order_id: next as u64, ..found });
                    assert(found.order_id == PLACEHOLDER_ORDER_ID);
                    assert(OrderView { order_id: PLACEHOLDER_ORDER_ID, ..made } == found);
                    assert(made.stock_symbol == symbol@);
                    assert(now.take(start.len() as int) =~= before.take(start.len() as int));
                    assert(now.skip(start.len() as int) =~= before.skip(start.len() as int).push(
                        made,
                    ));
                    assert(now.skip(start.len() as int).drop_last() =~= before.skip(
                        start.len() as int,
                    ));
                    assert(now.skip(start.len() as int).last() == made);
                    if made.order_action == OrderAction::Buy {
                        assert(self.broker_records@ =~= start_records + records_of(
                            now.skip(start.len() as int),
                            prices@,
                        ));
                    }
                    assert forall|j: int|
                        start.len() <= j < self.pending_orders@.len() implies (#[trigger] now[j]).order_id
                        == first_id + (j - start.len()) && now[j].client_id == self.id by {
                        if j < before.len() {
                            assert(now[j] == before[j]);
                        }
                    }
                    if nice {
                        assert(draws@[k as int].wf());
                        assert(admissible(account@, broker_id, prices@, made));
                        assert forall|j: int|
                            start.len() <= j < self.pending_orders@.len() implies admissible(
                            account@,
                            broker_id,
                            prices@,
                            #[trigger] now[j],
                        ) by {
                            if j < before.len() {
                                assert(now[j] == before[j]);
                            }
                        }
                    }
                    crate::ledger_laws::lemma_index_of_unique(prices.symbols(), at as int);
                    let old_slots = slots;
                    slots = slots.push(k as int);
                    assert forall|j: int| 0 <= j < slots.len() implies 0 <= #[trigger] slots[j] < k
                        + 1 && order@[slots[j]] == prices.symbols().index_of(
                        now[start.len() + j].stock_symbol,
                    ) by {
                        if j < old_slots.len() {
                            assert(slots[j] == old_slots[j]);
                            assert(now[start.len() + j] == before[start.len() + j]);
                        }
                    }
                    assert forall|i: int, j: int| start.len() <= i < j < now.len() implies considered_before(
                        account@,
                        prices.symbols(),
                        prices.symbols().index_of((#[trigger] now[i]).stock_symbol),
                        prices.symbols().index_of((#[trigger] now[j]).stock_symbol),
                    ) by {
                        if j < before.len() {
                            assert(now[i] == before[i] && now[j] == before[j]);
                        } else {
                            assert(now[i] == before[i]);
                            let slot = old_slots[i - start.len()];
                            assert(0 <= slot < k);
                            assert(order@[slot] == prices.symbols().index_of(
                                before[i].stock_symbol,
                            ));
                            assert(considered_before(
                                account@,
                                prices.symbols(),
                                order@[slot] as int,
                                order@[k as int] as int,
                            ));
                        }
                    }
                }
                generated += 1;
            } else {
                proof {
                    assert forall|j: int| 0 <= j < slots.len() implies 0 <= #[trigger] slots[j] < k
                        + 1 by {}
                }
            }
            k += 1;
        }
        proof {
            crate::priority::lemma_priority_order_is_unique(account@, prices.symbols(), order@);
            if generated >= max_orders {
                lemma_cap_ends_round(
                    opening,
                    setting,
                    order@,
                    draws@,
                    k as nat,
                    turns(setting, draws@),
                );
            }
        }
    }

    /// One round of order generation, by the snapshot of the client's
    /// account: the round of `generate_with_draws`, with draws made at
    /// random, one set for each symbol of the book.
    ///
    /// Which orders come out depends on the draws. Whatever is drawn: the
    /// round is the one that some draws within their ranges give, one
    /// set for each symbol; hence the orders that were pending stay, and
    /// those added are admissible for this client at the book's prices,
    /// come in the order in which the client considers their symbols,
    /// and carry the allocator's next identifiers in order; each added
    /// buy has its record.
    pub fn generate_order(
        &mut self,
        rng: &mut rand::rngs::StdRng,
        broker_id: u64,
        snapshot: Option<&ClientAccount>,
        prices: &PriceBook,
        allocator: &mut OrderIdAllocator,
        max_orders: usize,
        stop_signal: bool,
    )
        requires
            snapshot is Some ==> snapshot->0.wf(),
            old(allocator).wf(),
            prices.wf(),
        ensures
            exists|draws: Seq<OrderDraws>|
                draws.len() == prices.symbols().len() && all_wf(draws) && (RoundView {
                    pending: order_views(final(self).pending_orders@),
                    records: final(self).broker_records@,
                    next_id: final(allocator).next_id(),
                }) == #[trigger] round_result(
                    RoundView {
                        pending: order_views(old(self).pending_orders@),
                        records: old(self).broker_records@,
                        next_id: old(allocator).next_id(),
                    },
                    snapshot_view(snapshot),
                    RoundSetting {
                        account: snapshot_view(snapshot)->0,
                        client_id: old(self).id,
                        broker_id,
                        symbols: prices.symbols(),
                        prices: prices@,
                        max_orders: max_orders as nat,
                    },
                    stop_signal,
                    draws,
                ),
            final(allocator).wf(),
            final(self).id == old(self).id,
            final(self).initial_capital == old(self).initial_capital,
            old(self).pending_orders@.len() <= final(self).pending_orders@.len(),
            final(self).pending_orders@.len() - old(self).pending_orders@.len() <= max_orders,
            final(self).pending_orders@.len() - old(self).pending_orders@.len()
                <= prices.symbols().len(),
            stop_signal || !usable(snapshot_view(snapshot), old(self).id) ==> old(
                self,
            ).pending_orders@.len() == final(self).pending_orders@.len(),
            order_views(final(self).pending_orders@).take(
                old(self).pending_orders@.len() as int,
            ) == order_views(old(self).pending_orders@),
            final(allocator).next_id() + old(self).pending_orders@.len() == old(
                allocator,
            ).next_id() + final(self).pending_orders@.len(),
            forall|k: int|
                old(self).pending_orders@.len() <= k < final(self).pending_orders@.len() ==> {
                    &&& admissible(
                        snapshot_view(snapshot)->0,
                        broker_id,
                        prices@,
                        #[trigger] order_views(final(self).pending_orders@)[k],
                    )
                    &&& order_views(final(self).pending_orders@)[k].order_id == old(
                        allocator,
                    ).next_id() + (k - old(self).pending_orders@.len())
                },
            in_priority_order(
                snapshot_view(snapshot)->0,
                prices.symbols(),
                order_views(final(self).pending_orders@),
                old(self).pending_orders@.len() as int,
            ),
            final(self).broker_records@ == old(self).broker_records@ + records_of(
                order_views(final(self).pending_orders@).skip(
                    old(self).pending_orders@.len() as int,
                ),
                prices@,
            ),
    {
        let draws: Vec<OrderDraws> = draw_orders(rng, prices.len());
        self.generate_with_draws(
            broker_id,
            snapshot,
            prices,
            allocator,
            max_orders,
            stop_signal,
            &draws,
        );
    }

    /// Hands over the pending orders, in the order in which they were
    /// placed, and leaves none pending.
    pub fn collect_orders(&mut self) -> (orders: Vec<Order>)
        ensures
            orders == old(self).pending_orders,
            final(self).pending_orders@.len() == 0,
            final(self).id == old(self).id,
            final(self).initial_capital == old(self).initial_capital,
            final(self).broker_records == old(self).broker_records,
    {
        let mut orders: Vec<Order> = Vec::new();
        std::mem::swap(&mut orders, &mut self.pending_orders);
        orders
    }

    /// Drops the records of the order `order_id` once it is settled.
    pub fn close_order(&mut self, order_id: u64)
        ensures
            final(self).broker_records@ == without_order(old(self).broker_records@, order_id),
            final(self).id == old(self).id,
            final(self).initial_capital == old(self).initial_capital,
            final(self).pending_orders == old(self).pending_orders,
    {
        self.broker_records.remove_order(order_id);
    }
}

/// An admissible order never sells what the client does not hold: a sale
/// names at most the shares held of its symbol before the round, and a
/// buy costs at most the client's capital.
pub proof fn lemma_admissible_order(
    account: AccountView,
    broker_id: u64,
    prices: Map<Seq<char>, u64>,
    order: OrderView,
)
    requires
        admissible(account, broker_id, prices, order),
    ensures
        order.status == crate::models::OrderStatus::Pending,
        order.client_id == account.client_id,
        order.broker_id == broker_id,
        1 <= order.quantity <= 10,
        order.order_action == OrderAction::Buy || order.order_action == OrderAction::Sell,
        order.order_action == OrderAction::Sell ==> order.quantity <= account.quantity(
            order.stock_symbol,
        ),
        order.order_action == OrderAction::Sell ==> account.holds(order.stock_symbol),
        order.order_action == OrderAction::Buy ==> order.price * order.quantity <= account.capital,
        order.order_type == crate::models::OrderType::Market ==> order.price
            == prices[order.stock_symbol],
{
    let draws = choose|draws: OrderDraws|
        draws.wf() && #[trigger] candidate(
            account,
            broker_id,
            order.stock_symbol,
            prices[order.stock_symbol] as nat,
            draws,
        ) == Some(OrderView { order_id: PLACEHOLDER_ORDER_ID, ..order });
    crate::generator::lemma_candidate_is_admitted(
        account,
        broker_id,
        order.stock_symbol,
        prices[order.stock_symbol] as nat,
        draws,
    );
}

} // verus!
