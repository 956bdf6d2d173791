//! The random walk that moves stock prices from round to round.

use vstd::prelude::*;
use rand::rngs::StdRng;
use crate::models::PriceUpdate;
use crate::random::{choose_positions, draw_between};

verus! {

/// The price below which the walk never takes a stock: 1.00.
pub const PRICE_FLOOR: u64 = 100;

/// How far one step can move a price: less than 10.00 either way.
pub const STEP_REACH: u64 = 1_000;

/// The price after a step of `change`: the sum, but at least `floor`.
pub open spec fn walked(price: nat, change: int, floor: nat) -> nat {
    if price + change < floor {
        floor
    } else {
        (price + change) as nat
    }
}

/// The price after a step of `change`, where it fits in 64 bits.
pub fn walk_price(price: u64, change: i64, floor: u64) -> (next: Option<u64>)
    ensures
        walked(price as nat, change as int, floor as nat) <= u64::MAX ==> next == Some(
            walked(price as nat, change as int, floor as nat) as u64,
        ),
        walked(price as nat, change as int, floor as nat) > u64::MAX ==> next is None,
{
    if change < 0 {
        let down: u64 = ((-(change + 1)) as u64) + 1;
        if price < down || price - down < floor {
            Some(floor)
        } else {
            Some(price - down)
        }
    } else {
        let up: u64 = change as u64;
        if price > u64::MAX - up {
            None
        } else if price + up < floor {
            Some(floor)
        } else {
            Some(price + up)
        }
    }
}

/// The step that a draw from 0 to `2 * reach - 1` stands for: the draw
/// less `reach`.
pub fn step_of(drawn: u64, reach: u64) -> (change: i64)
    requires
        reach <= i64::MAX,
        drawn < 2 * reach,
    ensures
        change == drawn - reach,
{
    if drawn >= reach {
        (drawn - reach) as i64
    } else {
        -((reach - drawn) as i64)
    }
}

/// Draws a step: at least `-reach` and less than `reach`.
pub fn random_change(rng: &mut StdRng, reach: u64) -> (change: i64)
    requires
        0 < reach <= i64::MAX,
    ensures
        -reach <= change < reach,
{
    let drawn: u64 = draw_between(rng, 0, 2 * reach - 1);
    step_of(drawn, reach)
}

/// Whether each of `changes` is a step within reach.
pub open spec fn within_reach(changes: Seq<i64>) -> bool {
    forall|k: int| 0 <= k < changes.len() ==> -STEP_REACH <= #[trigger] changes[k] < STEP_REACH
}

/// Draws `count` steps within reach.
pub fn random_changes(rng: &mut StdRng, count: usize) -> (changes: Vec<i64>)
    ensures
        changes@.len() == count,
        within_reach(changes@),
{
    let mut changes: Vec<i64> = Vec::new();
    let mut i: usize = 0;
    while i < count
        invariant
            i <= count,
            changes@.len() == i,
            within_reach(changes@),
        decreases count - i,
    {
        let change: i64 = random_change(rng, STEP_REACH);
        changes.push(change);
        i += 1;
    }
    changes
}

/// The names of the stocks, in order.
pub open spec fn names(stocks: Seq<PriceUpdate>) -> Seq<Seq<char>> {
    Seq::new(stocks.len(), |i: int| stocks[i].name@)
}

/// The prices of the stocks, in order.
pub open spec fn prices_of(stocks: Seq<PriceUpdate>) -> Seq<u64> {
    Seq::new(stocks.len(), |i: int| stocks[i].price)
}

/// The names and prices that a list of updates carries.
pub open spec fn update_views(updates: Seq<PriceUpdate>) -> Seq<(Seq<char>, u64)> {
    Seq::new(updates.len(), |i: int| (updates[i].name@, updates[i].price))
}

/// How many stocks take a step: as many as are chosen, or as many as
/// there are steps, if those are fewer.
pub open spec fn steps_taken(chosen: Seq<usize>, changes: Seq<i64>) -> nat {
    if chosen.len() <= changes.len() {
        chosen.len()
    } else {
        changes.len()
    }
}

/// Whether the `k`-th step moves a stock: it names a stock of the list,
/// and the price after the step fits in 64 bits.
pub open spec fn step_moves(prices: Seq<u64>, at: int, change: int) -> bool {
    0 <= at < prices.len() && walked(prices[at] as nat, change, PRICE_FLOOR as nat) <= u64::MAX
}

/// The prices after the first `steps` of the chosen stocks took their
/// steps, the `k`-th chosen stock the `k`-th step. A step that does not
/// move a stock leaves the prices as they are.
pub open spec fn prices_after(prices: Seq<u64>, chosen: Seq<usize>, changes: Seq<i64>, steps: nat) -> Seq<
    u64,
>
    decreases steps,
{
    if steps == 0 {
        prices
    } else {
        let before = prices_after(prices, chosen, changes, (steps - 1) as nat);
        let at = chosen[steps - 1] as int;
        let change = changes[steps - 1] as int;
        if step_moves(before, at, change) {
            before.update(at, walked(before[at] as nat, change, PRICE_FLOOR as nat) as u64)
        } else {
            before
        }
    }
}

/// What is published after the first `steps` steps: for each step that
/// moved a stock, the stock's name and its price after the step, in the
/// order of the steps.
pub open spec fn published_after(
    names: Seq<Seq<char>>,
    prices: Seq<u64>,
    chosen: Seq<usize>,
    changes: Seq<i64>,
    steps: nat,
) -> Seq<(Seq<char>, u64)>
    decreases steps,
{
    if steps == 0 {
        Seq::empty()
    } else {
        let before = prices_after(prices, chosen, changes, (steps - 1) as nat);
        let shown = published_after(names, prices, chosen, changes, (steps - 1) as nat);
        let at = chosen[steps - 1] as int;
        let change = changes[steps - 1] as int;
        if step_moves(before, at, change) {
            shown.push((names[at], walked(before[at] as nat, change, PRICE_FLOOR as nat) as u64))
        } else {
            shown
        }
    }
}

/// Whether `now` is what one round may make of a stock that stood at
/// `before`: the same price, or the price after one step within reach.
pub open spec fn moved_within_reach(before: u64, now: u64) -> bool {
    now == before || exists|change: int|
        -STEP_REACH <= change < STEP_REACH && now == #[trigger] walked(
            before as nat,
            change,
            PRICE_FLOOR as nat,
        )
}

/// Whether `stocks` holds a stock with the name and the price that
/// `update` carries.
pub open spec fn lists(stocks: Seq<PriceUpdate>, update: PriceUpdate) -> bool {
    exists|i: int|
        0 <= i < stocks.len() && (#[trigger] stocks[i]).name@ == update.name@ && stocks[i].price
            == update.price
}

/// Whether one of the first `upto` positions of `chosen` names a stock
/// with the name and the price that `update` carries.
pub open spec fn lists_among(
    stocks: Seq<PriceUpdate>,
    chosen: Seq<usize>,
    upto: int,
    update: PriceUpdate,
) -> bool {
    exists|j: int|
        0 <= j < upto && stocks[(#[trigger] chosen[j]) as int].name@ == update.name@
            && stocks[chosen[j] as int].price == update.price
}

/// Whether `chosen` names stocks of a list of `count`, none twice.
pub open spec fn picks_stocks(chosen: Seq<usize>, count: nat) -> bool {
    &&& chosen.no_duplicates()
    &&& forall|k: int| 0 <= k < chosen.len() ==> #[trigger] chosen[k] < count
}

/// How many stocks are picked where `amount` are asked for from a list
/// of `count`: as many as asked for, or all where there are fewer.
pub open spec fn picked(amount: nat, count: nat) -> nat {
    if amount <= count {
        amount
    } else {
        count
    }
}

/// Whether `chosen` is what a round may pick from a list of `count`
/// stocks: two, three or four of them, or all where there are fewer.
pub open spec fn is_pick(chosen: Seq<usize>, count: nat) -> bool {
    &&& picks_stocks(chosen, count)
    &&& chosen.len() == picked(2, count) || chosen.len() == picked(3, count) || chosen.len()
        == picked(4, count)
}

/// One round of the walk with given picks and steps: the `k`-th chosen
/// stock takes the `k`-th step, as long as there are both. A stock whose
/// price after the step fits in 64 bits takes that price and is
/// published with it; any other stays as it is, and so does the list
/// where a pick names no stock of it. The names never change.
///
/// The first three clauses say all of this at once. The last two spell
/// out what follows where no stock is picked twice and each step is
/// within reach: every price is the old one or one step away from it,
/// and each stock is published with the price that the list now holds
/// for it.
pub fn apply_steps(stocks: &mut Vec<PriceUpdate>, chosen: &Vec<usize>, changes: &Vec<i64>) -> (published:
    Vec<PriceUpdate>)
    ensures
        names(final(stocks)@) == names(old(stocks)@),
        prices_of(final(stocks)@) == prices_after(
            prices_of(old(stocks)@),
            chosen@,
            changes@,
            steps_taken(chosen@, changes@),
        ),
        update_views(published@) == published_after(
            names(old(stocks)@),
            prices_of(old(stocks)@),
            chosen@,
            changes@,
            steps_taken(chosen@, changes@),
        ),
        published@.len() <= steps_taken(chosen@, changes@),
        picks_stocks(chosen@, old(stocks)@.len()) && within_reach(changes@) ==> forall|i: int|
            0 <= i < old(stocks)@.len() ==> moved_within_reach(
                old(stocks)@[i].price,
                #[trigger] final(stocks)@[i].price,
            ),
        picks_stocks(chosen@, old(stocks)@.len()) ==> forall|k: int|
            0 <= k < published@.len() ==> lists(final(stocks)@, #[trigger] published@[k]),
{
    let ghost nice = picks_stocks(chosen@, stocks@.len());
    let ghost near = within_reach(changes@);
    let ghost first_names = names(stocks@);
    let ghost first_prices = prices_of(stocks@);
    let mut published: Vec<PriceUpdate> = Vec::new();
    let mut k: usize = 0;
    proof {
        assert(update_views(published@) =~= Seq::<(Seq<char>, u64)>::empty());
    }
    while k < chosen.len() && k < changes.len()
        invariant
            k <= chosen@.len(),
            k <= changes@.len(),
            nice == picks_stocks(chosen@, old(stocks)@.len()),
            near == within_reach(changes@),
            first_names == names(old(stocks)@),
            first_prices == prices_of(old(stocks)@),
            stocks@.len() == old(stocks)@.len(),
            names(stocks@) == first_names,
            prices_of(stocks@) == prices_after(first_prices, chosen@, changes@, k as nat),
            update_views(published@) == published_after(
                first_names,
                first_prices,
                chosen@,
                changes@,
                k as nat,
            ),
            published@.len() <= k,
            nice && near ==> forall|i: int|
                0 <= i < stocks@.len() ==> moved_within_reach(
                    old(stocks)@[i].price,
                    #[trigger] stocks@[i].price,
                ),
            nice ==> forall|j: int|
                k <= j < chosen@.len() ==> stocks@[(#[trigger] chosen@[j]) as int].price == old(
                    stocks,
                )@[chosen@[j] as int].price,
            nice ==> forall|p: int|
                0 <= p < published@.len() ==> lists_among(
                    stocks@,
                    chosen@,
                    k as int,
                    #[trigger] published@[p],
                ),
        decreases chosen@.len() - k,
    {
        let at: usize = chosen[k];
        let change: i64 = changes[k];
        let ghost before = stocks@;
        let ghost shown = published@;
        let ghost shown_views = update_views(published@);
        let moved: Option<u64> = if at < stocks.len() {
            walk_price(stocks[at].price, change, PRICE_FLOOR)
        } else {
            None
        };
        proof {
            assert(moved is Some <==> step_moves(prices_of(before), at as int, change as int));
        }
        match moved {
            Some(price) => {
                let name: String = stocks[at].name.clone();
                let stock = &mut stocks[at];
                stock.price = price;
                published.push(PriceUpdate { name, price });
                proof {
                    assert(stocks@.len() == before.len());
                    assert forall|i: int| 0 <= i < stocks@.len() && i != at implies stocks@[i]
                        == before[i] by {}
                    assert(stocks@[at as int].name == before[at as int].name);
                    assert(names(stocks@) =~= names(before));
                    assert(prices_of(stocks@) =~= prices_of(before).update(at as int, price));
                    assert(first_names[at as int] == before[at as int].name@);
                    assert(update_views(published@) =~= shown_views.push(
                        (first_names[at as int], price),
                    ));
                    if nice {
                        let first = old(stocks)@[at as int].price;
                        assert(before[at as int].price == first);
                        if near {
                            assert(-STEP_REACH <= changes@[k as int] < STEP_REACH);
                            assert(price == walked(
                                first as nat,
                                change as int,
                                PRICE_FLOOR as nat,
                            ));
                            assert(moved_within_reach(first, price));
                        }
                        assert forall|j: int| k + 1 <= j < chosen@.len() implies stocks@[(
                        #[trigger] chosen@[j]) as int].price == old(
                            stocks,
                        )@[chosen@[j] as int].price by {
                            assert(chosen@[j] != chosen@[k as int]);
                        }
                        assert forall|p: int| 0 <= p < published@.len() implies lists_among(
                            stocks@,
                            chosen@,
                            k + 1,
                            #[trigger] published@[p],
                        ) by {
                            if p < shown.len() {
                                assert(published@[p] == shown[p]);
                                assert(lists_among(before, chosen@, k as int, shown[p]));
                                let j = choose|j: int|
                                    0 <= j < k && before[(#[trigger] chosen@[j]) as int].name@
                                        == shown[p].name@ && before[chosen@[j] as int].price
                                        == shown[p].price;
                                assert(chosen@[j] != chosen@[k as int]);
                                assert(stocks@[chosen@[j] as int] == before[chosen@[j] as int]);
                            } else {
                                assert(stocks@[chosen@[k as int] as int].name@
                                    == published@[p].name@);
                            }
                        }
                    }
                }
            },
            None => {
                proof {
                    if nice {
                        assert forall|p: int| 0 <= p < published@.len() implies lists_among(
                            stocks@,
                            chosen@,
                            k + 1,
                            #[trigger] published@[p],
                        ) by {
                            assert(lists_among(stocks@, chosen@, k as int, published@[p]));
                            let j = choose|j: int|
                                0 <= j < k && stocks@[(#[trigger] chosen@[j]) as int].name@
                                    == published@[p].name@ && stocks@[chosen@[j] as int].price
                                    == published@[p].price;
                            assert(0 <= j < k + 1);
                        }
                    }
                }
            },
        }
        k += 1;
    }
    proof {
        if nice {
            assert forall|p: int| 0 <= p < published@.len() implies lists(
                stocks@,
                #[trigger] published@[p],
            ) by {
                assert(lists_among(stocks@, chosen@, k as int, published@[p]));
                let j = choose|j: int|
                    0 <= j < k && stocks@[(#[trigger] chosen@[j]) as int].name@
                        == published@[p].name@ && stocks@[chosen@[j] as int].price
                        == published@[p].price;
                assert(stocks@[chosen@[j] as int].name@ == published@[p].name@);
            }
        }
    }
    published
}

/// Whether `now` and `published` are what a round makes of `before` with
/// these picks and steps.
pub open spec fn is_round_with(
    before: Seq<PriceUpdate>,
    now: Seq<PriceUpdate>,
    published: Seq<PriceUpdate>,
    chosen: Seq<usize>,
    changes: Seq<i64>,
) -> bool {
    &&& is_pick(chosen, before.len())
    &&& changes.len() == chosen.len()
    &&& within_reach(changes)
    &&& names(now) == names(before)
    &&& prices_of(now) == prices_after(prices_of(before), chosen, changes, chosen.len())
    &&& update_views(published) == published_after(
        names(before),
        prices_of(before),
        chosen,
        changes,
        chosen.len(),
    )
}

/// One round of the walk: two to four stocks are picked at random, all
/// where there are fewer, and each takes one random step within reach:
/// the round of `apply_steps`. The result lists the stocks that moved,
/// with their new prices, for publication.
///
/// Which stocks move, and how far, depends on the draws. Whatever is
/// drawn: the round is the one that some such picks and steps give;
/// hence the list keeps its stocks and their names; each price is the
/// old one or one step away from it, and never below the floor unless it
/// was there before; at most four stocks are published, each with the
/// price that the list now holds for it.
pub fn update_round(rng: &mut StdRng, stocks: &mut Vec<PriceUpdate>) -> (published: Vec<
    PriceUpdate,
>)
    ensures
        exists|chosen: Seq<usize>, changes: Seq<i64>| #[trigger]
            is_round_with(old(stocks)@, final(stocks)@, published@, chosen, changes),
        names(final(stocks)@) == names(old(stocks)@),
        forall|i: int|
            0 <= i < old(stocks)@.len() ==> moved_within_reach(
                old(stocks)@[i].price,
                #[trigger] final(stocks)@[i].price,
            ),
        published@.len() <= 4,
        published@.len() <= old(stocks)@.len(),
        forall|k: int| 0 <= k < published@.len() ==> lists(final(stocks)@, #[trigger] published@[k]),
{
    let amount: u64 = draw_between(rng, 2, 4);
    let chosen: Vec<usize> = choose_positions(rng, stocks.len(), amount as usize);
    let changes: Vec<i64> = random_changes(rng, chosen.len());
    let published = apply_steps(stocks, &chosen, &changes);
    proof {
        let count = old(stocks)@.len();
        assert(chosen@.len() == picked(amount as nat, count));
        assert(is_pick(chosen@, count));
        assert(is_round_with(old(stocks)@, stocks@, published@, chosen@, changes@));
    }
    published
}

} // verus!
