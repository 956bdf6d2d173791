//! A broker and its shard of clients. The broker keeps the latest prices,
//! lets its clients place orders, and brings settled orders back to the
//! ledger of the client they belong to.

use vstd::prelude::*;
use crate::client::{
    admissible,
    in_priority_order,
    order_views,
    record_for,
    records_of,
    round_result,
    without_order,
    BrokerRecord,
    Client,
    RoundSetting,
    RoundView,
};
use crate::delivery::{account_after, passes, seen_after, verdict, Applied, DeliveryLog};
use crate::generator::{
    all_wf,
    draw_orders,
    draw_rounds,
    draw_views,
    draws_of,
    is_full_draw,
    OrderDraws,
};
use crate::ledger::{AccountView, ClientAccount};
use crate::models::{Order, OrderAction, OrderStatus, OrderView, PriceUpdate};
use crate::order_id::OrderIdAllocator;
use crate::price_book::PriceBook;
use crate::priority::considered_before;

verus! {

/// The mathematical content of a broker's shard: which orders have
/// been let through, and for each client its account, its records and
/// the capital it started with. The clients carry consecutive
/// identifiers from `first_client` on.
pub struct ShardView {
    pub first_client: nat,
    pub seen: Set<u64>,
    pub accounts: Seq<AccountView>,
    pub records: Seq<Seq<BrokerRecord>>,
    pub initial_capitals: Seq<u64>,
}

/// The first client identifier of broker `broker_id` where each broker
/// has `clients_per_broker` clients: broker 1 has the clients from 1 on,
/// broker 2 those that follow, and so on.
pub open spec fn first_client_of(broker_id: nat, clients_per_broker: nat) -> nat
    recommends
        broker_id >= 1,
{
    ((broker_id - 1) * clients_per_broker + 1) as nat
}

impl ShardView {
    /// Every client has an account and a list of records, and the
    /// accounts carry consecutive client identifiers.
    pub open spec fn wf(self) -> bool {
        &&& self.accounts.len() == self.records.len()
        &&& self.accounts.len() == self.initial_capitals.len()
        &&& self.first_client + self.accounts.len() <= u64::MAX + 1
        &&& forall|i: int|
            0 <= i < self.accounts.len() ==> (#[trigger] self.accounts[i]).wf()
                && self.accounts[i].client_id == self.first_client + i
    }

    /// The shard of a broker whose clients have not traded yet.
    pub open spec fn opening(first_client: nat, clients: nat, capital: nat) -> ShardView {
        ShardView {
            first_client,
            seen: Set::empty(),
            accounts: Seq::new(
                clients,
                |i: int| AccountView::opening((first_client + i) as u64, capital),
            ),
            records: Seq::new(clients, |i: int| Seq::<BrokerRecord>::empty()),
            initial_capitals: Seq::new(clients, |i: int| capital as u64),
        }
    }

    /// The position of the client `client_id` in the shard, if it belongs
    /// to it.
    pub open spec fn owner(self, client_id: u64) -> Option<int> {
        if self.first_client <= client_id < self.first_client + self.accounts.len() {
            Some(client_id - self.first_client)
        } else {
            None
        }
    }

    /// The shard after a settled order was delivered to it, and what
    /// became of the order. An order of a client of another shard changes
    /// nothing. Otherwise the order goes through the log to its client's
    /// ledger, and where it is let through its records are dropped.
    pub open spec fn deliver(self, order: OrderView) -> (ShardView, Applied) {
        match self.owner(order.client_id) {
            None => (self, Applied::WrongClient),
            Some(i) => (
                ShardView {
                    first_client: self.first_client,
                    seen: seen_after(self.seen, self.accounts[i], order),
                    accounts: self.accounts.update(
                        i,
                        account_after(self.seen, self.accounts[i], order),
                    ),
                    records: if passes(self.seen, self.accounts[i], order) {
                        self.records.update(i, without_order(self.records[i], order.order_id))
                    } else {
                        self.records
                    },
                    initial_capitals: self.initial_capitals,
                },
                verdict(self.seen, self.accounts[i], order),
            ),
        }
    }

    /// The shard after `orders` were delivered one after the other, and
    /// what became of each.
    pub open spec fn deliver_all(self, orders: Seq<OrderView>) -> (ShardView, Seq<Applied>)
        decreases orders.len(),
    {
        if orders.len() == 0 {
            (self, Seq::empty())
        } else {
            let (shard, results) = self.deliver_all(orders.drop_last());
            let (end, applied) = shard.deliver(orders.last());
            (end, results.push(applied))
        }
    }
}

/// A broker with its clients.
pub struct Broker {
    id: u64,
    first_client: u64,
    clients: Vec<Client>,
    accounts: Vec<ClientAccount>,
    stock_data: PriceBook,
    deliveries: DeliveryLog,
}

impl Broker {
    /// The broker's identifier.
    pub closed spec fn broker_id(&self) -> u64 {
        self.id
    }

    /// The broker's clients.
    pub closed spec fn clients(&self) -> Seq<Client> {
        self.clients@
    }

    /// The accounts of the broker's clients, each at its client's
    /// position.
    pub closed spec fn accounts(&self) -> Seq<ClientAccount> {
        self.accounts@
    }

    /// The latest prices the broker knows.
    pub closed spec fn prices(&self) -> Map<Seq<char>, u64> {
        self.stock_data@
    }

    /// The symbols the broker knows, in the order in which it saw them.
    pub closed spec fn symbols(&self) -> Seq<Seq<char>> {
        self.stock_data.symbols()
    }

    /// The content of the broker's shard.
    pub closed spec fn shard(&self) -> ShardView {
        ShardView {
            first_client: self.first_client as nat,
            seen: self.deliveries@,
            accounts: Seq::new(self.accounts@.len(), |i: int| self.accounts@[i]@),
            records: Seq::new(self.clients@.len(), |i: int| self.clients@[i].broker_records@),
            initial_capitals: Seq::new(
                self.clients@.len(),
                |i: int| self.clients@[i].initial_capital,
            ),
        }
    }

    /// Holds of every broker that this module hands out: each client has
    /// a well-formed account of its own; the clients carry consecutive
    /// identifiers and have handed on every order they placed.
    pub closed spec fn wf(&self) -> bool {
        &&& self.stock_data.wf()
        &&& self.accounts@.len() == self.clients@.len()
        &&& self.first_client + self.clients@.len() <= u64::MAX + 1
        &&& forall|i: int|
            0 <= i < self.clients@.len() ==> {
                &&& (#[trigger] self.clients@[i]).id == self.first_client + i
                &&& self.clients@[i].pending_orders@.len() == 0
            }
        &&& forall|i: int|
            0 <= i < self.accounts@.len() ==> {
                &&& (#[trigger] self.accounts@[i]).wf()
                &&& self.accounts@[i]@.client_id == self.first_client + i
            }
    }

    /// The shard of a well-formed broker is well formed, with one account
    /// for each client.
    pub proof fn lemma_shard_wf(&self)
        requires
            self.wf(),
        ensures
            self.shard().wf(),
            self.shard().accounts.len() == self.clients().len(),
            self.accounts().len() == self.clients().len(),
            forall|i: int|
                0 <= i < self.clients().len() ==> (#[trigger] self.clients()[i]).broker_records@
                    == self.shard().records[i] && self.clients()[i].initial_capital
                    == self.shard().initial_capitals[i] && self.clients()[i].id
                    == self.shard().first_client + i
                    && self.clients()[i].pending_orders@.len() == 0,
            forall|i: int|
                0 <= i < self.accounts().len() ==> (#[trigger] self.accounts()[i]).wf()
                    && self.accounts()[i]@ == self.shard().accounts[i],
    {
        assert forall|i: int| 0 <= i < self.shard().accounts.len() implies (
        #[trigger] self.shard().accounts[i]).wf() && self.shard().accounts[i].client_id
            == self.shard().first_client + i by {
            assert(self.accounts@[i].wf());
            self.accounts@[i].lemma_view_wf();
        }
    }

    /// A broker with `clients_per_broker` clients, each starting with
    /// `initial_capital`. The clients of broker 1 carry the identifiers
    /// from 1 on, those of broker 2 the ones that follow, and so on.
    pub fn new(id: u64, clients_per_broker: u64, initial_capital: u64) -> (broker: Self)
        requires
            id >= 1,
            id * clients_per_broker <= u64::MAX,
            clients_per_broker <= usize::MAX,
        ensures
            broker.wf(),
            broker.broker_id() == id,
            broker.prices() == Map::<Seq<char>, u64>::empty(),
            broker.symbols() == Seq::<Seq<char>>::empty(),
            broker.shard() == ShardView::opening(
                first_client_of(id as nat, clients_per_broker as nat),
                clients_per_broker as nat,
                initial_capital as nat,
            ),
    {
        proof {
            assert((id - 1) * clients_per_broker + clients_per_broker == id * clients_per_broker)
                by (nonlinear_arith)
                requires
                    id >= 1,
            ;
            assert((id - 1) * clients_per_broker >= 0) by (nonlinear_arith)
                requires
                    id >= 1,
                    clients_per_broker >= 0,
            ;
        }
        let first_client: u64 = (id - 1) * clients_per_broker + 1;
        let mut clients: Vec<Client> = Vec::new();
        let mut accounts: Vec<ClientAccount> = Vec::new();
        let mut k: u64 = 0;
        while k < clients_per_broker
            invariant
                k <= clients_per_broker,
                first_client + clients_per_broker <= u64::MAX + 1,
                clients@.len() == k,
                accounts@.len() == k,
                forall|i: int|
                    0 <= i < k ==> {
                        &&& (#[trigger] clients@[i]).id == first_client + i
                        &&& clients@[i].initial_capital == initial_capital
                        &&& clients@[i].pending_orders@.len() == 0
                        &&& clients@[i].broker_records@ == Seq::<BrokerRecord>::empty()
                    },
                forall|i: int|
                    0 <= i < k ==> {
                        &&& (#[trigger] accounts@[i]).wf()
                        &&& accounts@[i]@ == AccountView::opening(
                            (first_client + i) as u64,
                            initial_capital as nat,
                        )
                    },
            decreases clients_per_broker - k,
        {
            let client = Client::with_capital(first_client + k, initial_capital);
            assert(client.broker_records@ =~= Seq::<BrokerRecord>::empty());
            clients.push(client);
            accounts.push(ClientAccount::new(first_client + k, initial_capital));
            k += 1;
        }
        let broker = Broker {
            id,
            first_client,
            clients,
            accounts,
            stock_data: PriceBook::new(),
            deliveries: DeliveryLog::new(),
        };
        proof {
            let expected = ShardView::opening(
                first_client_of(id as nat, clients_per_broker as nat),
                clients_per_broker as nat,
                initial_capital as nat,
            );
            assert(broker.shard().accounts =~= expected.accounts);
            assert(broker.shard().records =~= expected.records);
            assert(broker.shard().initial_capitals =~= expected.initial_capitals);
        }
        broker
    }

    /// The broker's identifier.
    pub fn id(&self) -> (id: u64)
        ensures
            id == self.broker_id(),
    {
        self.id
    }

    /// The broker's clients, in the order of their identifiers.
    pub fn get_clients(&self) -> (clients: &Vec<Client>)
        ensures
            clients@ == self.clients(),
    {
        &self.clients
    }

    /// The accounts of the broker's clients, in the order of the clients.
    pub fn get_accounts(&self) -> (accounts: &Vec<ClientAccount>)
        ensures
            accounts@ == self.accounts(),
    {
        &self.accounts
    }

    /// Records the latest price of a symbol.
    pub fn update_price(&mut self, update: &PriceUpdate)
        requires
            old(self).wf(),
        ensures
            final(self).wf(),
            final(self).broker_id() == old(self).broker_id(),
            final(self).shard() == old(self).shard(),
            final(self).clients() == old(self).clients(),
            final(self).prices() == old(self).prices().insert(update.name@, update.price),
            old(self).prices().contains_key(update.name@) ==> final(self).symbols() == old(
                self,
            ).symbols(),
            !old(self).prices().contains_key(update.name@) ==> final(self).symbols() == old(
                self,
            ).symbols().push(update.name@),
    {
        self.stock_data.apply(update);
    }

    /// The latest price of `symbol`, if the broker has seen one.
    pub fn price_of(&self, symbol: &str) -> (price: Option<u64>)
        requires
            self.wf(),
        ensures
            price is Some <==> self.prices().contains_key(symbol@),
            price is Some ==> price->0 == self.prices()[symbol@],
    {
        self.stock_data.price_of(symbol)
    }

    /// Brings one settled order to the ledger of the client it belongs
    /// to, through the delivery log. An order of a client of another shard is
    /// reported as such and changes nothing.
    pub fn settle_order(&mut self, order: &Order) -> (applied: Applied)
        requires
            old(self).wf(),
        ensures
            final(self).wf(),
            final(self).broker_id() == old(self).broker_id(),
            final(self).prices() == old(self).prices(),
            final(self).symbols() == old(self).symbols(),
            (final(self).shard(), applied) == old(self).shard().deliver(order@),
    {
        proof {
            self.lemma_shard_wf();
        }
        if order.client_id < self.first_client {
            return Applied::WrongClient;
        }
        let offset: u64 = order.client_id - self.first_client;
        if offset >= self.clients.len() as u64 {
            return Applied::WrongClient;
        }
        let at: usize = offset as usize;
        let ghost before = *self;
        let account = &mut self.accounts[at];
        let applied: Applied = self.deliveries.apply_settlement(account, order);
        match applied {
            Applied::StillPending | Applied::WrongClient | Applied::Duplicate => {},
            _ => {
                let client = &mut self.clients[at];
                client.close_order(order.order_id);
            },
        }
        proof {
            let expected = before.shard().deliver(order@).0;
            assert(self.clients@.len() == before.clients@.len());
            assert(self.accounts@.len() == before.accounts@.len());
            assert forall|i: int| 0 <= i < self.clients@.len() && i != at implies self.clients@[i]
                == before.clients@[i] by {}
            assert forall|i: int| 0 <= i < self.accounts@.len() && i != at implies self.accounts@[i]
                == before.accounts@[i] by {}
            assert(before.accounts@[at as int].wf());
            before.accounts@[at as int].lemma_view_wf();
            match applied {
                Applied::Bought => {
                    crate::ledger_laws::lemma_buy_position(
                        before.accounts@[at as int]@,
                        order@.stock_symbol,
                        order.quantity as nat,
                        order.price as nat,
                    );
                },
                Applied::Sold => {
                    crate::ledger_laws::lemma_sell_position(
                        before.accounts@[at as int]@,
                        order@.stock_symbol,
                        order.quantity as nat,
                        order.price as nat,
                    );
                },
                _ => {},
            }
            assert(self.shard().accounts =~= expected.accounts);
            assert(self.shard().records =~= expected.records);
            assert(self.shard().initial_capitals =~= expected.initial_capitals);
        }
        applied
    }

    /// Brings settled orders to the ledgers of the clients they belong
    /// to, one after the other, and reports what became of each.
    pub fn process_completed_orders(&mut self, completed_orders: &Vec<Order>) -> (results: Vec<
        Applied,
    >)
        requires
            old(self).wf(),
        ensures
            final(self).wf(),
            final(self).broker_id() == old(self).broker_id(),
            final(self).prices() == old(self).prices(),
            final(self).symbols() == old(self).symbols(),
            (final(self).shard(), results@) == old(self).shard().deliver_all(
                order_views(completed_orders@),
            ),
    {
        let ghost orders = order_views(completed_orders@);
        let mut results: Vec<Applied> = Vec::new();
        let mut i: usize = 0;
        while i < completed_orders.len()
            invariant
                self.wf(),
                self.broker_id() == old(self).broker_id(),
                self.prices() == old(self).prices(),
                self.symbols() == old(self).symbols(),
                i <= completed_orders@.len(),
                orders == order_views(completed_orders@),
                (self.shard(), results@) == old(self).shard().deliver_all(orders.take(i as int)),
            decreases completed_orders@.len() - i,
        {
            let applied: Applied = self.settle_order(&completed_orders[i]);
            proof {
                assert(orders.take(i + 1).drop_last() =~= orders.take(i as int));
                assert(orders.take(i + 1).last() == completed_orders@[i as int]@);
            }
            results.push(applied);
            i += 1;
        }
        proof {
            assert(orders.take(completed_orders@.len() as int) =~= orders);
        }
        results
    }
}

/// The records that exist for those of `orders` that the client
/// `client_id` placed: one for each of its buys, in order.
pub open spec fn records_of_client(
    orders: Seq<OrderView>,
    prices: Map<Seq<char>, u64>,
    client_id: int,
) -> Seq<BrokerRecord>
    decreases orders.len(),
{
    if orders.len() == 0 {
        Seq::empty()
    } else if orders.last().client_id == client_id && orders.last().order_action
        == OrderAction::Buy {
        records_of_client(orders.drop_last(), prices, client_id).push(
            record_for(orders.last(), prices[orders.last().stock_symbol] as nat),
        )
    } else {
        records_of_client(orders.drop_last(), prices, client_id)
    }
}

/// Whether `orders` come client by client, in the order of the clients'
/// identifiers, and for each client in the order in which that client
/// considers their symbols.
pub open spec fn in_cycle_order(
    shard: ShardView,
    symbols: Seq<Seq<char>>,
    orders: Seq<OrderView>,
) -> bool {
    forall|j: int, k: int|
        0 <= j < k < orders.len() ==> {
            &&& (#[trigger] orders[j]).client_id <= (#[trigger] orders[k]).client_id
            &&& orders[j].client_id == orders[k].client_id ==> considered_before(
                shard.accounts[orders[j].client_id - shard.first_client],
                symbols,
                symbols.index_of(orders[j].stock_symbol),
                symbols.index_of(orders[k].stock_symbol),
            )
        }
}

/// The round of the client at position `index` of the shard, with these
/// draws, where `next_id` is the identifier to issue next. The client
/// starts the round with no order pending.
pub open spec fn client_round(
    shard: ShardView,
    broker_id: u64,
    symbols: Seq<Seq<char>>,
    prices: Map<Seq<char>, u64>,
    index: int,
    next_id: nat,
    max_orders: nat,
    stop_signal: bool,
    draws: Seq<OrderDraws>,
) -> RoundView {
    round_result(
        RoundView { pending: Seq::empty(), records: shard.records[index], next_id },
        Some(shard.accounts[index]),
        RoundSetting {
            account: shard.accounts[index],
            client_id: (shard.first_client + index) as u64,
            broker_id,
            symbols,
            prices,
            max_orders,
        },
        stop_signal,
        draws,
    )
}

/// What a cycle has brought so far: the orders handed on, the records of
/// each client, and the identifier to issue next.
pub struct CycleView {
    pub orders: Seq<OrderView>,
    pub records: Seq<Seq<BrokerRecord>>,
    pub next_id: nat,
}

/// The cycle after the first `clients` clients of the shard had their
/// round, one after the other, each with its own draws: the orders of
/// each round follow those of the rounds before it.
pub open spec fn cycle_after(
    shard: ShardView,
    broker_id: u64,
    symbols: Seq<Seq<char>>,
    prices: Map<Seq<char>, u64>,
    next_id: nat,
    max_orders: nat,
    stop_signal: bool,
    draws: Seq<Seq<OrderDraws>>,
    clients: nat,
) -> CycleView
    decreases clients,
{
    if clients == 0 {
        CycleView { orders: Seq::empty(), records: shard.records, next_id }
    } else {
        let before = cycle_after(
            shard,
            broker_id,
            symbols,
            prices,
            next_id,
            max_orders,
            stop_signal,
            draws,
            (clients - 1) as nat,
        );
        let round = client_round(
            ShardView { records: before.records, ..shard },
            broker_id,
            symbols,
            prices,
            clients - 1,
            before.next_id,
            max_orders,
            stop_signal,
            draws_of(draws, clients - 1),
        );
        CycleView {
            orders: before.orders + round.pending,
            records: before.records.update(clients - 1, round.records),
            next_id: round.next_id,
        }
    }
}

/// Orders that one client placed add their records to that client's and
/// to no other's.
pub proof fn lemma_records_of_batch(
    earlier: Seq<OrderView>,
    batch: Seq<OrderView>,
    prices: Map<Seq<char>, u64>,
    owner: int,
    client_id: int,
)
    requires
        forall|k: int| 0 <= k < batch.len() ==> (#[trigger] batch[k]).client_id == owner,
    ensures
        client_id == owner ==> records_of_client(earlier + batch, prices, client_id)
            == records_of_client(earlier, prices, client_id) + records_of(batch, prices),
        client_id != owner ==> records_of_client(earlier + batch, prices, client_id)
            == records_of_client(earlier, prices, client_id),
    decreases batch.len(),
{
    if batch.len() == 0 {
        assert(earlier + batch =~= earlier);
        assert(records_of_client(earlier, prices, client_id) + records_of(batch, prices)
            =~= records_of_client(earlier, prices, client_id));
    } else {
        let rest = batch.drop_last();
        assert((earlier + batch).drop_last() =~= earlier + rest);
        assert((earlier + batch).last() == batch.last());
        assert(batch.last() == batch[batch.len() - 1]);
        lemma_records_of_batch(earlier, rest, prices, owner, client_id);
        if client_id == owner && batch.last().order_action == OrderAction::Buy {
            let record = record_for(batch.last(), prices[batch.last().stock_symbol] as nat);
            assert((records_of_client(earlier, prices, client_id) + records_of(rest, prices)).push(
                record,
            ) =~= records_of_client(earlier, prices, client_id) + records_of(rest, prices).push(
                record,
            ));
        }
    }
}

impl Broker {
    /// Lets the client at position `index` have its round with given
    /// draws, and hands on the orders that it places: those of
    /// `Client::generate_with_draws`, by the client's own account and the
    /// broker's prices. No account changes.
    ///
    /// The first three clauses say all of this at once; the others spell
    /// out what follows from it.
    pub fn process_client_orders_with(
        &mut self,
        index: usize,
        allocator: &mut OrderIdAllocator,
        max_orders: usize,
        stop_signal: bool,
        draws: &Vec<OrderDraws>,
    ) -> (orders: Vec<Order>)
        requires
            old(self).wf(),
            old(allocator).wf(),
            index < old(self).clients().len(),
        ensures
            order_views(orders@) == client_round(
                old(self).shard(),
                old(self).broker_id(),
                old(self).symbols(),
                old(self).prices(),
                index as int,
                old(allocator).next_id(),
                max_orders as nat,
                stop_signal,
                draws@,
            ).pending,
            final(self).shard().records == old(self).shard().records.update(
                index as int,
                client_round(
                    old(self).shard(),
                    old(self).broker_id(),
                    old(self).symbols(),
                    old(self).prices(),
                    index as int,
                    old(allocator).next_id(),
                    max_orders as nat,
                    stop_signal,
                    draws@,
                ).records,
            ),
            final(allocator).next_id() == client_round(
                old(self).shard(),
                old(self).broker_id(),
                old(self).symbols(),
                old(self).prices(),
                index as int,
                old(allocator).next_id(),
                max_orders as nat,
                stop_signal,
                draws@,
            ).next_id,
            final(self).wf(),
            final(allocator).wf(),
            final(self).broker_id() == old(self).broker_id(),
            final(self).prices() == old(self).prices(),
            final(self).symbols() == old(self).symbols(),
            final(self).shard().first_client == old(self).shard().first_client,
            final(self).shard().seen == old(self).shard().seen,
            final(self).shard().accounts == old(self).shard().accounts,
            final(self).shard().initial_capitals == old(self).shard().initial_capitals,
            final(self).shard().records == old(self).shard().records.update(
                index as int,
                old(self).shard().records[index as int] + records_of(
                    order_views(orders@),
                    old(self).prices(),
                ),
            ),
            orders@.len() <= max_orders,
            orders@.len() <= old(self).symbols().len(),
            orders@.len() <= draws@.len(),
            stop_signal ==> orders@.len() == 0,
            final(allocator).next_id() == old(allocator).next_id() + orders@.len(),
            forall|k: int|
                0 <= k < orders@.len() ==> (#[trigger] order_views(orders@)[k]).order_id == old(
                    allocator,
                ).next_id() + k && order_views(orders@)[k].client_id == old(
                    self,
                ).shard().first_client + index,
            all_wf(draws@) ==> forall|k: int|
                0 <= k < orders@.len() ==> admissible(
                    old(self).shard().accounts[index as int],
                    old(self).broker_id(),
                    old(self).prices(),
                    #[trigger] order_views(orders@)[k],
                ),
            in_priority_order(
                old(self).shard().accounts[index as int],
                old(self).symbols(),
                order_views(orders@),
                0,
            ),
    {
        let ghost before = *self;
        proof {
            self.lemma_shard_wf();
            assert(self.accounts@[index as int].wf());
        }
        let client = &mut self.clients[index];
        client.generate_with_draws(
            self.id,
            Some(&self.accounts[index]),
            &self.stock_data,
            allocator,
            max_orders,
            stop_signal,
            draws,
        );
        let orders: Vec<Order> = client.collect_orders();
        proof {
            assert(before.clients@[index as int].pending_orders@.len() == 0);
            assert(order_views(before.clients@[index as int].pending_orders@) =~= Seq::<
                OrderView,
            >::empty());
            assert(order_views(orders@).skip(0) =~= order_views(orders@));
            assert(self.clients@.len() == before.clients@.len());
            assert forall|i: int| 0 <= i < self.clients@.len() && i != index implies self.clients@[i]
                == before.clients@[i] by {}
            assert(self.shard().accounts =~= before.shard().accounts);
            assert(self.shard().initial_capitals =~= before.shard().initial_capitals);
            assert(self.shard().records =~= before.shard().records.update(
                index as int,
                before.shard().records[index as int] + records_of(
                    order_views(orders@),
                    before.prices(),
                ),
            ));
        }
        orders
    }

    /// Lets the client at position `index` place orders for one round and
    /// hands them on: the round of `process_client_orders_with`, with
    /// draws made at random, one set for each symbol of the book.
    ///
    /// Which orders come out depends on the draws. Whatever is drawn: the
    /// round is the one that some draws within their ranges give; hence
    /// no account changes; the orders are admissible for that client at
    /// the broker's prices and carry the allocator's next identifiers in
    /// order; and the client has a record for each of its buys among
    /// them.
    pub fn process_client_orders(
        &mut self,
        rng: &mut rand::rngs::StdRng,
        index: usize,
        allocator: &mut OrderIdAllocator,
        max_orders: usize,
        stop_signal: bool,
    ) -> (orders: Vec<Order>)
        requires
            old(self).wf(),
            old(allocator).wf(),
            index < old(self).clients().len(),
        ensures
            exists|draws: Seq<OrderDraws>|
                draws.len() == old(self).symbols().len() && all_wf(draws) && (RoundView {
                    pending: order_views(orders@),
                    records: final(self).shard().records[index as int],
                    next_id: final(allocator).next_id(),
                }) == #[trigger] client_round(
                    old(self).shard(),
                    old(self).broker_id(),
                    old(self).symbols(),
                    old(self).prices(),
                    index as int,
                    old(allocator).next_id(),
                    max_orders as nat,
                    stop_signal,
                    draws,
                ),
            final(self).wf(),
            final(allocator).wf(),
            final(self).broker_id() == old(self).broker_id(),
            final(self).prices() == old(self).prices(),
            final(self).symbols() == old(self).symbols(),
            final(self).shard().first_client == old(self).shard().first_client,
            final(self).shard().seen == old(self).shard().seen,
            final(self).shard().accounts == old(self).shard().accounts,
            final(self).shard().initial_capitals == old(self).shard().initial_capitals,
            final(self).shard().records == old(self).shard().records.update(
                index as int,
                old(self).shard().records[index as int] + records_of(
                    order_views(orders@),
                    old(self).prices(),
                ),
            ),
            orders@.len() <= max_orders,
            orders@.len() <= old(self).symbols().len(),
            stop_signal ==> orders@.len() == 0,
            final(allocator).next_id() == old(allocator).next_id() + orders@.len(),
            forall|k: int|
                0 <= k < orders@.len() ==> {
                    &&& admissible(
                        old(self).shard().accounts[index as int],
                        old(self).broker_id(),
                        old(self).prices(),
                        #[trigger] order_views(orders@)[k],
                    )
                    &&& order_views(orders@)[k].order_id == old(allocator).next_id() + k
                },
            in_priority_order(
                old(self).shard().accounts[index as int],
                old(self).symbols(),
                order_views(orders@),
                0,
            ),
    {
        let draws: Vec<OrderDraws> = draw_orders(rng, self.stock_data.len());
        proof {
            self.lemma_shard_wf();
        }
        let ghost round = client_round(
            self.shard(),
            self.broker_id(),
            self.symbols(),
            self.prices(),
            index as int,
            allocator.next_id(),
            max_orders as nat,
            stop_signal,
            draws@,
        );
        let orders = self.process_client_orders_with(index, allocator, max_orders, stop_signal, &draws);
        proof {
            assert((RoundView {
                pending: order_views(orders@),
                records: self.shard().records[index as int],
                next_id: allocator.next_id(),
            }) == round);
        }
        orders
    }

    /// One cycle of order generation with given draws: each client in
    /// turn has its round, the client at position `c` with the draws at
    /// position `c`, or with none where there are none for it, and the
    /// broker hands on the orders of all rounds, client by client. No
    /// account changes.
    ///
    /// The first clause says all of this at once; the others spell out
    /// what follows from it.
    pub fn run_cycle_with(
        &mut self,
        allocator: &mut OrderIdAllocator,
        max_orders: usize,
        stop_signal: bool,
        draws: &Vec<Vec<OrderDraws>>,
    ) -> (orders: Vec<Order>)
        requires
            old(self).wf(),
            old(allocator).wf(),
        ensures
            (CycleView {
                orders: order_views(orders@),
                records: final(self).shard().records,
                next_id: final(allocator).next_id(),
            }) == cycle_after(
                old(self).shard(),
                old(self).broker_id(),
                old(self).symbols(),
                old(self).prices(),
                old(allocator).next_id(),
                max_orders as nat,
                stop_signal,
                draw_views(draws@),
                old(self).clients().len(),
            ),
            final(self).wf(),
            final(allocator).wf(),
            final(self).broker_id() == old(self).broker_id(),
            final(self).prices() == old(self).prices(),
            final(self).symbols() == old(self).symbols(),
            final(self).shard().first_client == old(self).shard().first_client,
            final(self).shard().seen == old(self).shard().seen,
            final(self).shard().accounts == old(self).shard().accounts,
            final(self).shard().initial_capitals == old(self).shard().initial_capitals,
            final(self).shard().records.len() == old(self).shard().records.len(),
            forall|i: int|
                0 <= i < old(self).shard().records.len() ==> #[trigger] final(self).shard().records[i]
                    == old(self).shard().records[i] + records_of_client(
                    order_views(orders@),
                    old(self).prices(),
                    old(self).shard().first_client + i,
                ),
            stop_signal ==> orders@.len() == 0,
            final(allocator).next_id() == old(allocator).next_id() + orders@.len(),
            forall|k: int|
                0 <= k < orders@.len() ==> {
                    &&& (#[trigger] order_views(orders@)[k]).order_id == old(allocator).next_id()
                        + k
                    &&& old(self).shard().owner(order_views(orders@)[k].client_id) is Some
                },
            (forall|c: int| 0 <= c < draws@.len() ==> all_wf(#[trigger] draw_views(draws@)[c]))
                ==> forall|k: int|
                0 <= k < orders@.len() ==> admissible(
                    old(self).shard().accounts[old(self).shard().owner(
                        (#[trigger] order_views(orders@)[k]).client_id,
                    )->0],
                    old(self).broker_id(),
                    old(self).prices(),
                    order_views(orders@)[k],
                ),
            in_cycle_order(old(self).shard(), old(self).symbols(), order_views(orders@)),
    {
        let ghost nice = forall|c: int|
            0 <= c < draws@.len() ==> all_wf(#[trigger] draw_views(draws@)[c]);
        let ghost broker_id = self.broker_id();
        let none: Vec<OrderDraws> = Vec::new();
        let ghost start = self.shard();
        let ghost symbols = self.symbols();
        let ghost prices = self.prices();
        let ghost first_id = allocator.next_id();
        let mut orders: Vec<Order> = Vec::new();
        let mut c: usize = 0;
        proof {
            self.lemma_shard_wf();
            assert forall|i: int| 0 <= i < start.records.len() implies #[trigger] self.shard().records[i]
                =~= start.records[i] + records_of_client(
                order_views(orders@),
                prices,
                start.first_client + i,
            ) by {}
            assert(order_views(orders@) =~= Seq::<OrderView>::empty());
        }
        while c < self.clients.len()
            invariant
                self.wf(),
                none@.len() == 0,
                broker_id == old(self).broker_id(),
                nice == (forall|c: int|
                    0 <= c < draws@.len() ==> all_wf(#[trigger] draw_views(draws@)[c])),
                (CycleView {
                    orders: order_views(orders@),
                    records: self.shard().records,
                    next_id: allocator.next_id(),
                }) == cycle_after(
                    start,
                    broker_id,
                    symbols,
                    prices,
                    first_id,
                    max_orders as nat,
                    stop_signal,
                    draw_views(draws@),
                    c as nat,
                ),
                allocator.wf(),
                start == old(self).shard(),
                start.wf(),
                prices == old(self).prices(),
                first_id == old(allocator).next_id(),
                self.broker_id() == broker_id,
                self.prices() == prices,
                self.symbols() == old(self).symbols(),
                self.shard().first_client == start.first_client,
                self.shard().seen == start.seen,
                self.shard().accounts == start.accounts,
                self.shard().initial_capitals == start.initial_capitals,
                self.shard().records.len() == start.records.len(),
                self.clients@.len() == start.accounts.len(),
                c <= self.clients@.len(),
                forall|i: int|
                    0 <= i < start.records.len() ==> #[trigger] self.shard().records[i]
                        == start.records[i] + records_of_client(
                        order_views(orders@),
                        prices,
                        start.first_client + i,
                    ),
                stop_signal ==> orders@.len() == 0,
                allocator.next_id() == first_id + orders@.len(),
                symbols == old(self).symbols(),
                in_cycle_order(start, symbols, order_views(orders@)),
                forall|k: int|
                    0 <= k < orders@.len() ==> (#[trigger] order_views(orders@)[k]).client_id
                        < start.first_client + c,
                forall|k: int|
                    0 <= k < orders@.len() ==> {
                        &&& (#[trigger] order_views(orders@)[k]).order_id == first_id + k
                        &&& start.owner(order_views(orders@)[k].client_id) is Some
                    },
                nice ==> forall|k: int|
                    0 <= k < orders@.len() ==> admissible(
                        start.accounts[start.owner(
                            (#[trigger] order_views(orders@)[k]).client_id,
                        )->0],
                        broker_id,
                        prices,
                        order_views(orders@)[k],
                    ),
            decreases self.clients@.len() - c,
        {
            let ghost earlier = order_views(orders@);
            let ghost records_before = self.shard().records;
            let ghost next = allocator.next_id();
            let ghost middle = self.shard();
            let ghost given = draws_of(draw_views(draws@), c as int);
            let mut batch: Vec<Order> = if c < draws.len() {
                self.process_client_orders_with(c, allocator, max_orders, stop_signal, &draws[c])
            } else {
                self.process_client_orders_with(c, allocator, max_orders, stop_signal, &none)
            };
            let ghost added = order_views(batch@);
            proof {
                if c >= draws@.len() {
                    assert(none@ =~= given);
                }
                assert(middle == (ShardView { records: records_before, ..start }));
                let round = client_round(
                    middle,
                    broker_id,
                    symbols,
                    prices,
                    c as int,
                    next,
                    max_orders as nat,
                    stop_signal,
                    given,
                );
                assert(added == round.pending);
                assert(self.shard().records == records_before.update(c as int, round.records));
                assert(allocator.next_id() == round.next_id);
                if nice && c < draws@.len() {
                    assert(all_wf(draw_views(draws@)[c as int]));
                }
            }
            orders.append(&mut batch);
            proof {
                let now = order_views(orders@);
                assert(now =~= earlier + added);
                assert forall|i: int| 0 <= i < start.records.len() implies #[trigger] self.shard().records[i]
                    == start.records[i] + records_of_client(now, prices, start.first_client + i) by {
                    lemma_records_of_batch(
                        earlier,
                        added,
                        prices,
                        start.first_client + c,
                        start.first_client + i,
                    );
                    if i == c {
                        assert(self.shard().records[i] == records_before[i] + records_of(
                            added,
                            prices,
                        ));
                        assert(start.records[i] + records_of_client(earlier, prices, start.first_client + i)
                            + records_of(added, prices) =~= start.records[i] + (records_of_client(
                            earlier,
                            prices,
                            start.first_client + i,
                        ) + records_of(added, prices)));
                    } else {
                        assert(self.shard().records[i] == records_before[i]);
                    }
                }
                assert forall|k: int| 0 <= k < now.len() implies (#[trigger] now[k]).client_id
                    < start.first_client + c + 1 by {
                    if k < earlier.len() {
                        assert(now[k] == earlier[k]);
                    } else {
                        assert(now[k] == added[k - earlier.len()]);
                    }
                }
                assert forall|j: int, k: int| 0 <= j < k < now.len() implies {
                    &&& (#[trigger] now[j]).client_id <= (#[trigger] now[k]).client_id
                    &&& now[j].client_id == now[k].client_id ==> considered_before(
                        start.accounts[now[j].client_id - start.first_client],
                        symbols,
                        symbols.index_of(now[j].stock_symbol),
                        symbols.index_of(now[k].stock_symbol),
                    )
                } by {
                    if k < earlier.len() {
                        assert(now[j] == earlier[j] && now[k] == earlier[k]);
                    } else if j < earlier.len() {
                        assert(now[j] == earlier[j]);
                        assert(now[k] == added[k - earlier.len()]);
                    } else {
                        assert(now[j] == added[j - earlier.len()]);
                        assert(now[k] == added[k - earlier.len()]);
                    }
                }
                assert forall|k: int| 0 <= k < now.len() implies {
                    &&& (#[trigger] now[k]).order_id == first_id + k
                    &&& start.owner(now[k].client_id) is Some
                } by {
                    if k < earlier.len() {
                        assert(now[k] == earlier[k]);
                    } else {
                        assert(now[k] == added[k - earlier.len()]);
                    }
                }
                if nice {
                    assert forall|k: int| 0 <= k < now.len() implies admissible(
                        start.accounts[start.owner((#[trigger] now[k]).client_id)->0],
                        broker_id,
                        prices,
                        now[k],
                    ) by {
                        if k < earlier.len() {
                            assert(now[k] == earlier[k]);
                        } else {
                            assert(now[k] == added[k - earlier.len()]);
                        }
                    }
                }
            }
            c += 1;
        }
        orders
    }

    /// One cycle of order generation: the cycle of `run_cycle_with`, with
    /// draws made at random, for each client one set for each symbol of
    /// the book.
    ///
    /// Which orders come out depends on the draws. Whatever is drawn: the
    /// cycle is the one that some draws within their ranges give; hence
    /// no account changes; each order is admissible for a client of the
    /// shard at the broker's prices; the orders carry the allocator's
    /// next identifiers in order; and each client has a record for each
    /// of its buys.
    pub fn run_cycle(
        &mut self,
        rng: &mut rand::rngs::StdRng,
        allocator: &mut OrderIdAllocator,
        max_orders: usize,
        stop_signal: bool,
    ) -> (orders: Vec<Order>)
        requires
            old(self).wf(),
            old(allocator).wf(),
        ensures
            exists|draws: Seq<Seq<OrderDraws>>|
                is_full_draw(draws, old(self).clients().len(), old(self).symbols().len()) && (
                CycleView {
                    orders: order_views(orders@),
                    records: final(self).shard().records,
                    next_id: final(allocator).next_id(),
                }) == #[trigger] cycle_after(
                    old(self).shard(),
                    old(self).broker_id(),
                    old(self).symbols(),
                    old(self).prices(),
                    old(allocator).next_id(),
                    max_orders as nat,
                    stop_signal,
                    draws,
                    old(self).clients().len(),
                ),
            final(self).wf(),
            final(allocator).wf(),
            final(self).broker_id() == old(self).broker_id(),
            final(self).prices() == old(self).prices(),
            final(self).symbols() == old(self).symbols(),
            final(self).shard().first_client == old(self).shard().first_client,
            final(self).shard().seen == old(self).shard().seen,
            final(self).shard().accounts == old(self).shard().accounts,
            final(self).shard().initial_capitals == old(self).shard().initial_capitals,
            final(self).shard().records.len() == old(self).shard().records.len(),
            forall|i: int|
                0 <= i < old(self).shard().records.len() ==> #[trigger] final(self).shard().records[i]
                    == old(self).shard().records[i] + records_of_client(
                    order_views(orders@),
                    old(self).prices(),
                    old(self).shard().first_client + i,
                ),
            stop_signal ==> orders@.len() == 0,
            final(allocator).next_id() == old(allocator).next_id() + orders@.len(),
            forall|k: int|
                0 <= k < orders@.len() ==> {
                    &&& (#[trigger] order_views(orders@)[k]).order_id == old(allocator).next_id()
                        + k
                    &&& old(self).shard().owner(order_views(orders@)[k].client_id) is Some
                    &&& admissible(
                        old(self).shard().accounts[old(self).shard().owner(
                            order_views(orders@)[k].client_id,
                        )->0],
                        old(self).broker_id(),
                        old(self).prices(),
                        order_views(orders@)[k],
                    )
                },
            in_cycle_order(old(self).shard(), old(self).symbols(), order_views(orders@)),
    {
        let draws: Vec<Vec<OrderDraws>> = draw_rounds(
            rng,
            self.clients.len(),
            self.stock_data.len(),
        );
        let ghost cycle = cycle_after(
            self.shard(),
            self.broker_id(),
            self.symbols(),
            self.prices(),
            allocator.next_id(),
            max_orders as nat,
            stop_signal,
            draw_views(draws@),
            self.clients().len(),
        );
        let orders = self.run_cycle_with(allocator, max_orders, stop_signal, &draws);
        proof {
            assert((CycleView {
                orders: order_views(orders@),
                records: self.shard().records,
                next_id: allocator.next_id(),
            }) == cycle);
        }
        orders
    }
}

/// The brokers of a market: `total_brokers` of them, numbered from 1,
/// each with `clients_per_broker` clients that start with
/// `initial_capital`.
pub fn initialize_brokers(total_brokers: u64, clients_per_broker: u64, initial_capital: u64) -> (brokers:
    Vec<Broker>)
    requires
        total_brokers * clients_per_broker <= u64::MAX,
        clients_per_broker <= usize::MAX,
    ensures
        brokers@.len() == total_brokers,
        forall|b: int|
            0 <= b < brokers@.len() ==> {
                &&& (#[trigger] brokers@[b]).wf()
                &&& brokers@[b].broker_id() == b + 1
                &&& brokers@[b].prices() == Map::<Seq<char>, u64>::empty()
                &&& brokers@[b].shard() == ShardView::opening(
                    first_client_of((b + 1) as nat, clients_per_broker as nat),
                    clients_per_broker as nat,
                    initial_capital as nat,
                )
            },
{
    let mut brokers: Vec<Broker> = Vec::new();
    let mut made: u64 = 0;
    while made < total_brokers
        invariant
            made <= total_brokers,
            total_brokers * clients_per_broker <= u64::MAX,
            clients_per_broker <= usize::MAX,
            brokers@.len() == made,
            forall|b: int|
                0 <= b < brokers@.len() ==> {
                    &&& (#[trigger] brokers@[b]).wf()
                    &&& brokers@[b].broker_id() == b + 1
                    &&& brokers@[b].prices() == Map::<Seq<char>, u64>::empty()
                    &&& brokers@[b].shard() == ShardView::opening(
                        first_client_of((b + 1) as nat, clients_per_broker as nat),
                        clients_per_broker as nat,
                        initial_capital as nat,
                    )
                },
        decreases total_brokers - made,
    {
        proof {
            assert((made + 1) * clients_per_broker <= total_brokers * clients_per_broker)
                by (nonlinear_arith)
                requires
                    made + 1 <= total_brokers,
                    clients_per_broker >= 0,
            ;
        }
        brokers.push(Broker::new(made + 1, clients_per_broker, initial_capital));
        made += 1;
    }
    brokers
}

/// The shards of two brokers share no client: every client of the broker
/// with the smaller number has a smaller identifier than every client of
/// the other.
pub proof fn lemma_shards_are_disjoint(
    broker: nat,
    later_broker: nat,
    clients_per_broker: nat,
    client: nat,
    later_client: nat,
)
    requires
        1 <= broker < later_broker,
        client < clients_per_broker,
    ensures
        first_client_of(broker, clients_per_broker) + client < first_client_of(
            later_broker,
            clients_per_broker,
        ) + later_client,
{
    assert((broker - 1) * clients_per_broker + clients_per_broker <= (later_broker - 1)
        * clients_per_broker) by (nonlinear_arith)
        requires
            1 <= broker < later_broker,
    ;
}

/// An order that is delivered a second time changes nothing in the shard:
/// what the first delivery did to the ledger, it did once.
pub proof fn lemma_redelivery_changes_nothing(shard: ShardView, order: OrderView)
    requires
        shard.wf(),
    ensures
        shard.deliver(order).0.deliver(order).0 == shard.deliver(order).0,
        passes(
            shard.seen,
            shard.accounts[shard.owner(order.client_id).unwrap_or(0)],
            order,
        ) && shard.owner(order.client_id) is Some ==> shard.deliver(order).0.deliver(order).1
            == Applied::Duplicate,
{
    match shard.owner(order.client_id) {
        None => {},
        Some(i) => {
            let first = shard.deliver(order).0;
            let account = shard.accounts[i];
            crate::delivery::lemma_second_delivery_changes_nothing(shard.seen, account, order);
            assert(first.accounts[i] == account_after(shard.seen, account, order));
            assert(first.owner(order.client_id) == Some(i));
            assert(!passes(first.seen, first.accounts[i], order));
            assert(first.deliver(order).0.accounts =~= first.accounts);
        },
    }
}

/// A delivery keeps the shard well formed: each client keeps its
/// identifier and a well-formed account.
pub proof fn lemma_deliver_keeps_shard(shard: ShardView, order: OrderView)
    requires
        shard.wf(),
    ensures
        shard.deliver(order).0.wf(),
        shard.deliver(order).0.first_client == shard.first_client,
        shard.deliver(order).0.accounts.len() == shard.accounts.len(),
{
    match shard.owner(order.client_id) {
        None => {},
        Some(i) => {
            let account = shard.accounts[i];
            let after = shard.deliver(order).0;
            assert(account.wf());
            match verdict(shard.seen, account, order) {
                Applied::Bought => {
                    crate::ledger_laws::lemma_buy_position(
                        account,
                        order.stock_symbol,
                        order.quantity as nat,
                        order.price as nat,
                    );
                },
                Applied::Sold => {
                    crate::ledger_laws::lemma_sell_position(
                        account,
                        order.stock_symbol,
                        order.quantity as nat,
                        order.price as nat,
                    );
                },
                _ => {},
            }
            assert forall|j: int| 0 <= j < after.accounts.len() implies (#[trigger] after.accounts[j]).wf()
                && after.accounts[j].client_id == after.first_client + j by {
                if j != i {
                    assert(after.accounts[j] == shard.accounts[j]);
                }
            }
        },
    }
}

/// A batch of one order is delivered as that order is.
pub proof fn lemma_deliver_one(shard: ShardView, order: OrderView)
    ensures
        shard.deliver_all(seq![order]) == (shard.deliver(order).0, seq![shard.deliver(order).1]),
{
    let orders = seq![order];
    assert(orders.drop_last() =~= Seq::<OrderView>::empty());
    assert(orders.last() == order);
    reveal_with_fuel(ShardView::deliver_all, 2);
    assert(shard.deliver_all(orders.drop_last()) == (shard, Seq::<Applied>::empty()));
    assert(Seq::<Applied>::empty().push(shard.deliver(order).1) =~= seq![shard.deliver(order).1]);
}

/// A completed sale of shares that its client holds, delivered to the
/// client's broker for the first time and within 64 bits, is applied: the
/// client's holding falls by the shares sold, its capital rises by the
/// proceeds, and no other client's account changes.
pub proof fn lemma_completed_sale_delivered(shard: ShardView, order: OrderView, i: int)
    requires
        shard.wf(),
        shard.owner(order.client_id) == Some(i),
        order.status == OrderStatus::Completed,
        order.order_action == OrderAction::Sell,
        !shard.seen.contains(order.order_id),
        shard.accounts[i].holds(order.stock_symbol),
        0 < order.quantity <= shard.accounts[i].quantity(order.stock_symbol),
        crate::store::sale_fits(shard.accounts[i], order.quantity as nat, order.price as nat),
    ensures
        shard.deliver(order).1 == Applied::Sold,
        shard.deliver_all(seq![order]) == (shard.deliver(order).0, seq![Applied::Sold]),
        shard.deliver(order).0.accounts[i].quantity(order.stock_symbol) + order.quantity
            == shard.accounts[i].quantity(order.stock_symbol),
        shard.deliver(order).0.accounts[i].capital == shard.accounts[i].capital + order.price
            * order.quantity,
        shard.deliver(order).0.seen.contains(order.order_id),
        forall|j: int|
            0 <= j < shard.accounts.len() && j != i ==> #[trigger] shard.deliver(
                order,
            ).0.accounts[j] == shard.accounts[j],
{
    let account = shard.accounts[i];
    assert(account.wf());
    assert(account.client_id == order.client_id);
    crate::ledger_laws::lemma_sell_position(
        account,
        order.stock_symbol,
        order.quantity as nat,
        order.price as nat,
    );
    crate::ledger_laws::lemma_sell_accounting(
        account,
        order.stock_symbol,
        order.quantity as nat,
        order.price as nat,
    );
    lemma_deliver_one(shard, order);
}

} // verus!
