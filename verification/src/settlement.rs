//! The settlement stage: it turns a pending order into a completed or a
//! rejected one, or leaves it pending for another round.

use vstd::prelude::*;
use crate::models::{Order, OrderStatus, OrderView};
use crate::money::{scale_amount, scaled};
use crate::random::draw_between;

verus! {

/// What settlement decides for a pending order.
#[derive(Clone, Copy, Debug, PartialEq, Eq, Structural)]
pub enum Outcome {
    Completed,
    Rejected,
    StillPending,
}

/// Where a settled order is published.
#[derive(Clone, Copy, Debug, PartialEq, Eq, Structural)]
pub enum Topic {
    CompletedOrders,
    RejectedOrders,
}

/// Why an order could not be settled.
#[derive(Clone, Copy, Debug, PartialEq, Eq, Structural)]
pub enum SettlementError {
    /// The fill price does not fit in 64 bits.
    FillPriceOverflow,
}

/// How many of a hundred pending orders complete, and how many are
/// rejected; the rest stay pending.
#[derive(Clone, Copy, Debug, PartialEq, Eq, Structural)]
pub struct SettlementPolicy {
    pub complete_percent: u64,
    pub reject_percent: u64,
}

/// The price at which an order requested at `requested` is filled: two
/// percent above it, rounded half up to a whole minor unit.
pub open spec fn fill_price(requested: nat) -> nat {
    scaled(requested, 102, 100)
}

/// The order after settlement has decided `outcome` for it. Only a
/// pending order changes: a completed or rejected one stays as it is.
pub open spec fn settled(order: OrderView, outcome: Outcome) -> OrderView {
    if order.status != OrderStatus::Pending {
        order
    } else {
        match outcome {
            Outcome::Completed => OrderView {
                status: OrderStatus::Completed,
                price: fill_price(order.price as nat) as u64,
                ..order
            },
            Outcome::Rejected => OrderView { status: OrderStatus::Rejected, ..order },
            Outcome::StillPending => order,
        }
    }
}

/// The topic on which an order of this status is published; a pending
/// order is not published.
pub open spec fn topic_of_status(status: OrderStatus) -> Option<Topic> {
    match status {
        OrderStatus::Pending => None,
        OrderStatus::Completed => Some(Topic::CompletedOrders),
        OrderStatus::Rejected => Some(Topic::RejectedOrders),
    }
}

impl SettlementPolicy {
    /// The two shares leave room for each other within a hundred.
    pub open spec fn wf(self) -> bool {
        self.complete_percent + self.reject_percent <= 100
    }

    /// What the policy decides for a draw from 0 to 99: the lowest draws
    /// complete, the next ones reject, the rest leave the order pending.
    pub open spec fn outcome_of(self, draw: nat) -> Outcome {
        if draw < self.complete_percent {
            Outcome::Completed
        } else if draw < self.complete_percent + self.reject_percent {
            Outcome::Rejected
        } else {
            Outcome::StillPending
        }
    }

    /// Forty in a hundred complete and twenty are rejected.
    pub fn reference() -> (policy: Self)
        ensures
            policy.wf(),
            policy == (SettlementPolicy { complete_percent: 40, reject_percent: 20 }),
    {
        SettlementPolicy { complete_percent: 40, reject_percent: 20 }
    }

    /// A policy with the given shares, if they fit within a hundred.
    pub fn new(complete_percent: u64, reject_percent: u64) -> (policy: Option<Self>)
        ensures
            complete_percent + reject_percent <= 100 ==> policy == Some(
                SettlementPolicy { complete_percent, reject_percent },
            ),
            complete_percent + reject_percent > 100 ==> policy is None,
    {
        if complete_percent <= 100 && reject_percent <= 100 - complete_percent {
            Some(SettlementPolicy { complete_percent, reject_percent })
        } else {
            None
        }
    }

    /// Decides the outcome for `draw`.
    pub fn decide(&self, draw: u64) -> (outcome: Outcome)
        requires
            self.wf(),
        ensures
            outcome == self.outcome_of(draw as nat),
    {
        if draw < self.complete_percent {
            Outcome::Completed
        } else if draw < self.complete_percent + self.reject_percent {
            Outcome::Rejected
        } else {
            Outcome::StillPending
        }
    }
}

/// The fill price for an order requested at `requested`, where it fits in
/// 64 bits.
pub fn adjusted_fill_price(requested: u64) -> (price: Option<u64>)
    ensures
        fill_price(requested as nat) <= u64::MAX ==> price == Some(
            fill_price(requested as nat) as u64,
        ),
        fill_price(requested as nat) > u64::MAX ==> price is None,
{
    scale_amount(requested, 102, 100)
}

/// The topic on which `order` is published, if it is settled.
pub fn topic_of(order: &Order) -> (topic: Option<Topic>)
    ensures
        topic == topic_of_status(order.status),
{
    match order.status {
        OrderStatus::Pending => None,
        OrderStatus::Completed => Some(Topic::CompletedOrders),
        OrderStatus::Rejected => Some(Topic::RejectedOrders),
    }
}

/// Whether settling `order` with `outcome` needs a fill price that does
/// not fit in 64 bits.
pub open spec fn fill_overflows(order: OrderView, outcome: Outcome) -> bool {
    &&& order.status == OrderStatus::Pending
    &&& outcome == Outcome::Completed
    &&& fill_price(order.price as nat) > u64::MAX
}

/// Applies `outcome` to `order`. A pending order that completes takes the
/// status `Completed` and the fill price; one that is rejected takes the
/// status `Rejected` and keeps its price. An order that is already
/// settled stays as it is, whatever the outcome. Where the fill price
/// does not fit, the order is left unchanged and the error says so.
pub fn settle(order: &mut Order, outcome: Outcome) -> (result: Result<(), SettlementError>)
    ensures
        fill_overflows(old(order)@, outcome) ==> result == Err::<(), SettlementError>(
            SettlementError::FillPriceOverflow,
        ) && final(order)@ == old(order)@,
        !fill_overflows(old(order)@, outcome) ==> result is Ok && final(order)@ == settled(
            old(order)@,
            outcome,
        ),
{
    match order.status {
        OrderStatus::Pending => {},
        _ => {
            return Ok(());
        },
    }
    match outcome {
        Outcome::Completed => {
            match adjusted_fill_price(order.price) {
                Some(price) => {
                    order.price = price;
                    order.status = OrderStatus::Completed;
                    Ok(())
                },
                None => Err(SettlementError::FillPriceOverflow),
            }
        },
        Outcome::Rejected => {
            order.status = OrderStatus::Rejected;
            Ok(())
        },
        Outcome::StillPending => Ok(()),
    }
}

/// Settles `order` as `policy` decides for `draw`, and says where to
/// publish it: nowhere while it is still pending.
pub fn decide_order(order: &mut Order, draw: u64, policy: &SettlementPolicy) -> (result: Result<
    Option<Topic>,
    SettlementError,
>)
    requires
        policy.wf(),
    ensures
        fill_overflows(old(order)@, policy.outcome_of(draw as nat)) ==> result == Err::<
            Option<Topic>,
            SettlementError,
        >(SettlementError::FillPriceOverflow) && final(order)@ == old(order)@,
        !fill_overflows(old(order)@, policy.outcome_of(draw as nat)) ==> final(order)@ == settled(
            old(order)@,
            policy.outcome_of(draw as nat),
        ) && result == Ok::<Option<Topic>, SettlementError>(
            topic_of_status(final(order)@.status),
        ),
{
    let outcome: Outcome = policy.decide(draw);
    match settle(order, outcome) {
        Ok(()) => Ok(topic_of(order)),
        Err(error) => Err(error),
    }
}

/// Settles `order` on a random draw from 0 to 99. Whatever is drawn, the
/// order ends as `policy` decides for some draw in that range.
pub fn simulate_settlement(
    rng: &mut rand::rngs::StdRng,
    order: &mut Order,
    policy: &SettlementPolicy,
) -> (result: Result<Option<Topic>, SettlementError>)
    requires
        policy.wf(),
    ensures
        exists|draw: nat|
            draw < 100 && if fill_overflows(old(order)@, #[trigger] policy.outcome_of(draw)) {
                result == Err::<Option<Topic>, SettlementError>(
                    SettlementError::FillPriceOverflow,
                ) && final(order)@ == old(order)@
            } else {
                final(order)@ == settled(old(order)@, policy.outcome_of(draw)) && result == Ok::<
                    Option<Topic>,
                    SettlementError,
                >(topic_of_status(final(order)@.status))
            },
{
    let draw: u64 = draw_between(rng, 0, 99);
    let result = decide_order(order, draw, policy);
    proof {
        let witness = draw as nat;
        assert(witness < 100);
        assert(policy.outcome_of(witness) == policy.outcome_of(draw as nat));
    }
    result
}

/// Settlement is one-shot: once an order is completed or rejected, no
/// later outcome changes it.
pub proof fn lemma_settled_is_final(order: OrderView, first: Outcome, second: Outcome)
    requires
        first != Outcome::StillPending,
    ensures
        settled(order, first).status != OrderStatus::Pending || order.status
            != OrderStatus::Pending,
        settled(settled(order, first), second) == settled(order, first),
{
}

/// An order is completed or rejected, never both: the status that
/// settlement gives it names one topic, and only a settled order has one.
pub proof fn lemma_one_topic(order: OrderView, outcome: Outcome)
    ensures
        topic_of_status(settled(order, outcome).status) is None <==> settled(
            order,
            outcome,
        ).status == OrderStatus::Pending,
        order.status == OrderStatus::Pending ==> (topic_of_status(settled(order, outcome).status)
            == Some(Topic::CompletedOrders) <==> outcome == Outcome::Completed),
        order.status == OrderStatus::Pending ==> (topic_of_status(settled(order, outcome).status)
            == Some(Topic::RejectedOrders) <==> outcome == Outcome::Rejected),
{
}

/// Settlement touches the status and, on completion, the price: every
/// other field of the order stays.
pub proof fn lemma_settlement_keeps_identity(order: OrderView, outcome: Outcome)
    ensures
        settled(order, outcome).order_id == order.order_id,
        settled(order, outcome).broker_id == order.broker_id,
        settled(order, outcome).client_id == order.client_id,
        settled(order, outcome).stock_symbol == order.stock_symbol,
        settled(order, outcome).order_type == order.order_type,
        settled(order, outcome).order_action == order.order_action,
        settled(order, outcome).quantity == order.quantity,
        outcome != Outcome::Completed ==> settled(order, outcome).price == order.price,
{
}

} // verus!
