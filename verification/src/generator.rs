//! How a client decides what order to place for a symbol, given its
//! holdings, its capital, the market price and a set of random draws.

use vstd::prelude::*;
use rand::rngs::StdRng;
use crate::ledger::{AccountView, ClientAccount};
use crate::models::{
    Order,
    OrderAction,
    OrderStatus,
    OrderType,
    OrderView,
    PLACEHOLDER_ORDER_ID,
};
use crate::money::{order_cost, scale_amount, scaled};
use crate::random::{draw_between, draw_chance};

verus! {

/// The unit of a price modifier: a modifier of 10,000 leaves the price as
/// it is.
pub const MODIFIER_UNIT: u64 = 10_000;

/// The random draws behind one candidate order.
#[derive(Clone, Copy, Debug, PartialEq, Eq, Structural)]
pub struct OrderDraws {
    /// Buy rather than sell, where the client holds the symbol.
    pub wants_buy: bool,
    /// A limit order rather than a market order.
    pub wants_limit: bool,
    /// How many shares.
    pub quantity: u64,
    /// The limit price as a share of the market price, in units of
    /// [`MODIFIER_UNIT`].
    pub modifier: u64,
}

impl OrderDraws {
    /// One to ten shares, at 70% to just under 130% of the market price.
    pub open spec fn wf(self) -> bool {
        &&& 1 <= self.quantity <= 10
        &&& 7_000 <= self.modifier <= 12_999
    }
}

/// The range from which the price modifier is drawn for a roll from 0 to
/// 99: ninety rolls in a hundred give 80% to 120% of the market price,
/// five give 70% to just under 80%, and five give 120% to just under 130%.
pub open spec fn modifier_bounds(roll: nat) -> (u64, u64) {
    if roll < 90 {
        (8_000u64, 12_000u64)
    } else if roll < 95 {
        (7_000u64, 7_999u64)
    } else {
        (12_000u64, 12_999u64)
    }
}

/// The range of the price modifier for `roll`.
pub fn modifier_range(roll: u64) -> (range: (u64, u64))
    ensures
        range == modifier_bounds(roll as nat),
        range.0 <= range.1,
        7_000 <= range.0,
        range.1 <= 12_999,
{
    if roll < 90 {
        (8_000, 12_000)
    } else if roll < 95 {
        (7_000, 7_999)
    } else {
        (12_000, 12_999)
    }
}

/// Draws what one candidate order needs: seven in ten are limit orders,
/// one in two wants to buy, the quantity is one to ten shares, and the
/// modifier comes from the range that a roll from 0 to 99 selects.
pub fn draw_order(rng: &mut StdRng) -> (draws: OrderDraws)
    ensures
        draws.wf(),
{
    let wants_limit: bool = draw_chance(rng, 7, 10);
    let wants_buy: bool = draw_chance(rng, 1, 2);
    let quantity: u64 = draw_between(rng, 1, 10);
    let roll: u64 = draw_between(rng, 0, 99);
    let range: (u64, u64) = modifier_range(roll);
    let modifier: u64 = draw_between(rng, range.0, range.1);
    OrderDraws { wants_buy, wants_limit, quantity, modifier }
}

/// Whether each of `draws` is within the ranges of a draw.
pub open spec fn all_wf(draws: Seq<OrderDraws>) -> bool {
    forall|i: int| 0 <= i < draws.len() ==> (#[trigger] draws[i]).wf()
}

/// Draws what `count` candidate orders need, one after the other.
pub fn draw_orders(rng: &mut StdRng, count: usize) -> (draws: Vec<OrderDraws>)
    ensures
        draws@.len() == count,
        all_wf(draws@),
{
    let mut draws: Vec<OrderDraws> = Vec::new();
    let mut i: usize = 0;
    while i < count
        invariant
            i <= count,
            draws@.len() == i,
            all_wf(draws@),
        decreases count - i,
    {
        let drawn: OrderDraws = draw_order(rng);
        draws.push(drawn);
        i += 1;
    }
    draws
}

/// The draws for the client at position `index`: none where `draws` has
/// no such position.
pub open spec fn draws_of(draws: Seq<Seq<OrderDraws>>, index: int) -> Seq<OrderDraws> {
    if 0 <= index < draws.len() {
        draws[index]
    } else {
        Seq::empty()
    }
}

/// The contents of a list of lists of draws.
pub open spec fn draw_views(draws: Seq<Vec<OrderDraws>>) -> Seq<Seq<OrderDraws>> {
    Seq::new(draws.len(), |i: int| draws[i]@)
}

/// Whether `draws` holds, for each of `clients` clients, one set of draws
/// for each of `symbols` symbols, each within the ranges of a draw.
pub open spec fn is_full_draw(draws: Seq<Seq<OrderDraws>>, clients: nat, symbols: nat) -> bool {
    &&& draws.len() == clients
    &&& forall|c: int|
        0 <= c < draws.len() ==> (#[trigger] draws[c]).len() == symbols && all_wf(draws[c])
}

/// Draws what the rounds of `clients` clients need, each over `symbols`
/// symbols.
pub fn draw_rounds(rng: &mut StdRng, clients: usize, symbols: usize) -> (draws: Vec<
    Vec<OrderDraws>,
>)
    ensures
        is_full_draw(draw_views(draws@), clients as nat, symbols as nat),
{
    let mut draws: Vec<Vec<OrderDraws>> = Vec::new();
    let mut c: usize = 0;
    while c < clients
        invariant
            c <= clients,
            is_full_draw(draw_views(draws@), c as nat, symbols as nat),
        decreases clients - c,
    {
        let round: Vec<OrderDraws> = draw_orders(rng, symbols);
        let ghost before = draw_views(draws@);
        draws.push(round);
        proof {
            assert(draw_views(draws@) =~= before.push(round@));
        }
        c += 1;
    }
    draws
}

/// Buy or sell: a client that holds nothing of the symbol buys; one that
/// holds some follows the draw.
pub open spec fn candidate_action(held: nat, wants_buy: bool) -> OrderAction {
    if held == 0 || wants_buy {
        OrderAction::Buy
    } else {
        OrderAction::Sell
    }
}

/// Limit or market, as drawn.
pub open spec fn candidate_type(wants_limit: bool) -> OrderType {
    if wants_limit {
        OrderType::Limit
    } else {
        OrderType::Market
    }
}

/// The price the order names: for a limit order the market price times
/// the modifier, rounded half up; for a market order the market price.
pub open spec fn candidate_price(market_price: nat, draws: OrderDraws) -> nat {
    if draws.wants_limit {
        scaled(market_price, draws.modifier as nat, MODIFIER_UNIT as nat)
    } else {
        market_price
    }
}

/// The order that the client places for `symbol`, if any. A candidate is
/// dropped if it names no shares or a price beyond 64 bits, if it is a
/// buy that the client's capital does not cover, or if it is a sale of
/// more shares than the client holds. An order that is placed is pending
/// and carries the placeholder identifier.
pub open spec fn candidate(
    account: AccountView,
    broker_id: u64,
    symbol: Seq<char>,
    market_price: nat,
    draws: OrderDraws,
) -> Option<OrderView> {
    let action = candidate_action(account.quantity(symbol), draws.wants_buy);
    let price = candidate_price(market_price, draws);
    if draws.quantity == 0 || price > u64::MAX {
        None
    } else if action == OrderAction::Buy && price * draws.quantity > account.capital {
        None
    } else if action == OrderAction::Sell && account.quantity(symbol) < draws.quantity {
        None
    } else {
        Some(
            OrderView {
                broker_id,
                client_id: account.client_id,
                order_id: PLACEHOLDER_ORDER_ID,
                stock_symbol: symbol,
                order_type: candidate_type(draws.wants_limit),
                order_action: action,
                price: price as u64,
                quantity: draws.quantity,
                status: OrderStatus::Pending,
            },
        )
    }
}

/// Builds the order that the client places for `symbol` at
/// `market_price` with these draws, or none where the candidate is
/// dropped. The account is only read: no capital is set aside.
pub fn build_candidate(
    account: &ClientAccount,
    broker_id: u64,
    symbol: &str,
    market_price: u64,
    draws: &OrderDraws,
) -> (order: Option<Order>)
    requires
        account.wf(),
    ensures
        match candidate(account@, broker_id, symbol@, market_price as nat, *draws) {
            Some(expected) => order is Some && order->0@ == expected,
            None => order is None,
        },
{
    if draws.quantity == 0 {
        return None;
    }
    let price: u64 = if draws.wants_limit {
        match scale_amount(market_price, draws.modifier, MODIFIER_UNIT) {
            Some(price) => price,
            None => {
                return None;
            },
        }
    } else {
        market_price
    };
    let held: u64 = account.quantity_of(symbol);
    let buys: bool = held == 0 || draws.wants_buy;
    if buys {
        let cost: u128 = order_cost(price, draws.quantity);
        if cost > account.capital() as u128 {
            return None;
        }
    } else if held < draws.quantity {
        return None;
    }
    Some(
        Order {
            broker_id,
            client_id: account.client_id(),
            order_id: PLACEHOLDER_ORDER_ID,
            stock_symbol: symbol.to_owned(),
            order_type: if draws.wants_limit {
                OrderType::Limit
            } else {
                OrderType::Market
            },
            order_action: if buys {
                OrderAction::Buy
            } else {
                OrderAction::Sell
            },
            price,
            quantity: draws.quantity,
            status: OrderStatus::Pending,
        },
    )
}

/// What holds of every order that is placed: it is pending and carries
/// the client's and the broker's identity; a sale names no more shares
/// than the client holds, and a buy costs no more than the client's
/// capital; a market order names the market price.
pub proof fn lemma_candidate_is_admitted(
    account: AccountView,
    broker_id: u64,
    symbol: Seq<char>,
    market_price: nat,
    draws: OrderDraws,
)
    requires
        candidate(account, broker_id, symbol, market_price, draws) is Some,
    ensures
        ({
            let order = candidate(account, broker_id, symbol, market_price, draws)->0;
            &&& order.status == OrderStatus::Pending
            &&& order.order_id == PLACEHOLDER_ORDER_ID
            &&& order.client_id == account.client_id
            &&& order.broker_id == broker_id
            &&& order.stock_symbol == symbol
            &&& order.quantity == draws.quantity
            &&& order.quantity >= 1
            &&& order.order_action != OrderAction::Cancel
            &&& order.order_action == OrderAction::Sell ==> order.quantity <= account.quantity(
                symbol,
            )
            &&& order.order_action == OrderAction::Buy ==> order.price * order.quantity
                <= account.capital
            &&& account.quantity(symbol) == 0 ==> order.order_action == OrderAction::Buy
            &&& order.order_type == OrderType::Market ==> order.price == market_price
        }),
{
}

/// A symbol that the client does not hold is never offered for sale,
/// whatever is drawn.
pub proof fn lemma_no_sale_without_holding(
    account: AccountView,
    broker_id: u64,
    symbol: Seq<char>,
    market_price: nat,
    draws: OrderDraws,
)
    requires
        account.quantity(symbol) == 0,
    ensures
        candidate(account, broker_id, symbol, market_price, draws) is Some ==> candidate(
            account,
            broker_id,
            symbol,
            market_price,
            draws,
        )->0.order_action == OrderAction::Buy,
{
}

} // verus!
