//! The messages that travel between the stages of the market.

use vstd::prelude::*;

verus! {

/// How an order is priced: at the market, or at a limit the client names.
#[derive(Clone, Copy, Debug, PartialEq, Eq, Structural)]
pub enum OrderType {
    Market,
    Limit,
}

/// What an order asks for.
#[derive(Clone, Copy, Debug, PartialEq, Eq, Structural)]
pub enum OrderAction {
    Buy,
    Sell,
    Cancel,
}

/// Where an order stands. `Completed` and `Rejected` are terminal.
#[derive(Clone, Copy, Debug, PartialEq, Eq, Structural)]
pub enum OrderStatus {
    Pending,
    Completed,
    Rejected,
}

impl OrderStatus {
    /// A terminal status admits no further transition.
    pub open spec fn is_terminal(self) -> bool {
        self != OrderStatus::Pending
    }

    pub fn terminal(self) -> (t: bool)
        ensures
            t == self.is_terminal(),
    {
        match self {
            OrderStatus::Pending => false,
            OrderStatus::Completed => true,
            OrderStatus::Rejected => true,
        }
    }
}

/// The identifier an order carries before one has been issued to it.
pub const PLACEHOLDER_ORDER_ID: u64 = 0;

/// The latest price of one symbol, in minor units.
#[derive(Clone, Debug, PartialEq, Eq)]
pub struct PriceUpdate {
    pub name: String,
    pub price: u64,
}

/// An order as it travels from a client to settlement and back.
/// `price` is in minor units per share.
#[derive(Clone, Debug, PartialEq, Eq)]
pub struct Order {
    pub broker_id: u64,
    pub client_id: u64,
    pub order_id: u64,
    pub stock_symbol: String,
    pub order_type: OrderType,
    pub order_action: OrderAction,
    pub price: u64,
    pub quantity: u64,
    pub status: OrderStatus,
}

/// The mathematical content of an [`Order`].
pub struct OrderView {
    pub broker_id: u64,
    pub client_id: u64,
    pub order_id: u64,
    pub stock_symbol: Seq<char>,
    pub order_type: OrderType,
    pub order_action: OrderAction,
    pub price: u64,
    pub quantity: u64,
    pub status: OrderStatus,
}

impl View for Order {
    type V = OrderView;

    open spec fn view(&self) -> OrderView {
        OrderView {
            broker_id: self.broker_id,
            client_id: self.client_id,
            order_id: self.order_id,
            stock_symbol: self.stock_symbol@,
            order_type: self.order_type,
            order_action: self.order_action,
            price: self.price,
            quantity: self.quantity,
            status: self.status,
        }
    }
}

impl Order {
    /// A copy that holds the same values in every field.
    pub fn duplicate(&self) -> (copy: Order)
        ensures
            copy@ == self@,
    {
        Order {
            broker_id: self.broker_id,
            client_id: self.client_id,
            order_id: self.order_id,
            stock_symbol: self.stock_symbol.clone(),
            order_type: self.order_type,
            order_action: self.order_action,
            price: self.price,
            quantity: self.quantity,
            status: self.status,
        }
    }
}

} // verus!
