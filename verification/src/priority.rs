//! The order in which a client considers symbols: the least held first,
//! and among equally held symbols the one that was seen first.

use vstd::prelude::*;
use crate::ledger::ClientAccount;
use crate::price_book::PriceBook;

verus! {

/// Whether position `a` ranks before position `b`: it has the smaller
/// key, or the same key and the smaller position.
pub open spec fn ranks_before(keys: Seq<u64>, a: int, b: int) -> bool {
    keys[a] < keys[b] || (keys[a] == keys[b] && a < b)
}

/// Whether `order` lists the position `i`.
pub open spec fn lists_position(order: Seq<usize>, i: int) -> bool {
    exists|k: int| 0 <= k < order.len() && #[trigger] order[k] == i
}

/// Whether `order` lists the first `count` positions of `keys`, each
/// once, so that each ranks before all that follow it.
pub open spec fn orders_prefix(keys: Seq<u64>, count: int, order: Seq<usize>) -> bool {
    &&& order.len() == count
    &&& forall|k: int| 0 <= k < order.len() ==> 0 <= #[trigger] order[k] < count
    &&& forall|i: int| 0 <= i < count ==> #[trigger] lists_position(order, i)
    &&& forall|j: int, k: int|
        0 <= j < k < order.len() ==> ranks_before(keys, #[trigger] order[j] as int, #[trigger] order[k] as int)
}

/// Whether `order` lists all positions of `keys` by rank.
pub open spec fn is_stable_order(keys: Seq<u64>, order: Seq<usize>) -> bool {
    orders_prefix(keys, keys.len() as int, order)
}

/// The positions of `keys`, least key first; positions with equal keys
/// keep their order.
pub fn stable_order(keys: &Vec<u64>) -> (order: Vec<usize>)
    ensures
        is_stable_order(keys@, order@),
{
    let mut order: Vec<usize> = Vec::new();
    let mut i: usize = 0;
    while i < keys.len()
        invariant
            i <= keys@.len(),
            orders_prefix(keys@, i as int, order@),
        decreases keys@.len() - i,
    {
        let key: u64 = keys[i];
        let mut at: usize = 0;
        while at < order.len() && keys[order[at]] <= key
            invariant
                i < keys@.len(),
                key == keys@[i as int],
                at <= order@.len(),
                orders_prefix(keys@, i as int, order@),
                forall|j: int| 0 <= j < at ==> keys@[#[trigger] order@[j] as int] <= key,
            decreases order@.len() - at,
        {
            at += 1;
        }
        let ghost before = order@;
        order.insert(at, i);
        proof {
            assert forall|k: int| 0 <= k < order@.len() implies 0 <= #[trigger] order@[k] < i + 1 by {
                if k < at {
                    assert(order@[k] == before[k]);
                } else if k > at {
                    assert(order@[k] == before[k - 1]);
                }
            }
            assert forall|p: int| 0 <= p < i + 1 implies #[trigger] lists_position(order@, p) by {
                if p == i {
                    assert(order@[at as int] == p);
                } else {
                    assert(lists_position(before, p));
                    let k = choose|k: int| 0 <= k < before.len() && #[trigger] before[k] == p;
                    if k < at {
                        assert(order@[k] == p);
                    } else {
                        assert(order@[k + 1] == p);
                    }
                }
            }
            assert forall|j: int, k: int| 0 <= j < k < order@.len() implies ranks_before(
                keys@,
                #[trigger] order@[j] as int,
                #[trigger] order@[k] as int,
            ) by {
                if k < at {
                    assert(order@[j] == before[j] && order@[k] == before[k]);
                } else if k == at {
                    assert(order@[j] == before[j]);
                    assert(before[j] < i);
                } else if j < at {
                    assert(order@[j] == before[j] && order@[k] == before[k - 1]);
                } else if j == at {
                    assert(order@[k] == before[k - 1]);
                    if at < k - 1 {
                        assert(ranks_before(keys@, before[at as int] as int, before[k - 1] as int));
                    }
                } else {
                    assert(order@[j] == before[j - 1] && order@[k] == before[k - 1]);
                }
            }
        }
        i += 1;
    }
    order
}

/// The position listed first has the least key, so a symbol of which
/// nothing is held comes before every symbol that is held.
pub proof fn lemma_least_key_first(keys: Seq<u64>, order: Seq<usize>, k: int)
    requires
        is_stable_order(keys, order),
        0 <= k < order.len(),
    ensures
        keys[order[0] as int] <= keys[order[k] as int],
{
    if k > 0 {
        assert(ranks_before(keys, order[0] as int, order[k] as int));
    }
}

/// Ranking is a strict order, so no position is listed twice.
pub proof fn lemma_order_lists_once(keys: Seq<u64>, order: Seq<usize>, j: int, k: int)
    requires
        is_stable_order(keys, order),
        0 <= j < order.len(),
        0 <= k < order.len(),
        j != k,
    ensures
        order[j] != order[k],
{
    if j < k {
        assert(ranks_before(keys, order[j] as int, order[k] as int));
    } else {
        assert(ranks_before(keys, order[k] as int, order[j] as int));
    }
}

/// How many shares the client holds of each symbol of the book, in the
/// book's order.
pub open spec fn is_held_by_symbol(account: &ClientAccount, prices: &PriceBook, held: Seq<u64>) -> bool {
    &&& held.len() == prices.symbols().len()
    &&& forall|i: int|
        0 <= i < held.len() ==> #[trigger] held[i] == account@.quantity(prices.symbols()[i])
}

/// The shares held of each symbol of the book.
pub fn held_by_symbol(account: &ClientAccount, prices: &PriceBook) -> (held: Vec<u64>)
    requires
        account.wf(),
        prices.wf(),
    ensures
        is_held_by_symbol(account, prices, held@),
{
    let mut held: Vec<u64> = Vec::new();
    let mut i: usize = 0;
    while i < prices.len()
        invariant
            account.wf(),
            prices.wf(),
            i <= prices.symbols().len(),
            held@.len() == i,
            forall|j: int|
                0 <= j < i ==> #[trigger] held@[j] == account@.quantity(prices.symbols()[j]),
        decreases prices.symbols().len() - i,
    {
        let symbol = prices.symbol_at(i);
        held.push(account.quantity_of(symbol.as_str()));
        i += 1;
    }
    held
}

/// Whether the client considers the symbol at position `a` before the one
/// at position `b`: it holds less of it, or as much and saw it first.
pub open spec fn considered_before(
    account: crate::ledger::AccountView,
    symbols: Seq<Seq<char>>,
    a: int,
    b: int,
) -> bool {
    account.quantity(symbols[a]) < account.quantity(symbols[b]) || (account.quantity(symbols[a])
        == account.quantity(symbols[b]) && a < b)
}

/// Whether `order` lists every position of `symbols` once, each before
/// all those that the client considers after it.
pub open spec fn is_priority_order(
    account: crate::ledger::AccountView,
    symbols: Seq<Seq<char>>,
    order: Seq<usize>,
) -> bool {
    &&& order.len() == symbols.len()
    &&& forall|k: int| 0 <= k < order.len() ==> 0 <= #[trigger] order[k] < symbols.len()
    &&& forall|i: int| 0 <= i < symbols.len() ==> #[trigger] lists_position(order, i)
    &&& forall|j: int, k: int|
        0 <= j < k < order.len() ==> considered_before(
            account,
            symbols,
            #[trigger] order[j] as int,
            #[trigger] order[k] as int,
        )
}

/// The order in which the client considers the symbols, as positions in
/// `symbols`. There is one such order and no other.
pub open spec fn priority_of(account: crate::ledger::AccountView, symbols: Seq<Seq<char>>) -> Seq<
    usize,
> {
    choose|order: Seq<usize>| is_priority_order(account, symbols, order)
}

/// Two priority orders for the same account and symbols agree up to any
/// position.
proof fn lemma_same_up_to(
    account: crate::ledger::AccountView,
    symbols: Seq<Seq<char>>,
    a: Seq<usize>,
    b: Seq<usize>,
    k: int,
)
    requires
        is_priority_order(account, symbols, a),
        is_priority_order(account, symbols, b),
        0 <= k < a.len(),
    ensures
        forall|j: int| 0 <= j <= k ==> a[j] == b[j],
    decreases k,
{
    if k > 0 {
        lemma_same_up_to(account, symbols, a, b, k - 1);
    }
    if a[k] != b[k] {
        assert(lists_position(b, a[k] as int));
        let m = choose|m: int| 0 <= m < b.len() && #[trigger] b[m] == a[k] as int;
        assert(lists_position(a, b[k] as int));
        let n = choose|n: int| 0 <= n < a.len() && #[trigger] a[n] == b[k] as int;
        if m < k {
            assert(a[m] == b[m]);
            assert(considered_before(account, symbols, a[m] as int, a[k] as int));
        }
        if n < k {
            assert(a[n] == b[n]);
            assert(considered_before(account, symbols, b[n] as int, b[k] as int));
        }
        assert(considered_before(account, symbols, b[k] as int, b[m] as int));
        assert(considered_before(account, symbols, a[k] as int, a[n] as int));
    }
}

/// The account and the symbols fix the priority order: there is only
/// one.
pub proof fn lemma_priority_order_is_unique(
    account: crate::ledger::AccountView,
    symbols: Seq<Seq<char>>,
    order: Seq<usize>,
)
    requires
        is_priority_order(account, symbols, order),
    ensures
        order == priority_of(account, symbols),
{
    let other = priority_of(account, symbols);
    assert(is_priority_order(account, symbols, other));
    if order.len() > 0 {
        lemma_same_up_to(account, symbols, order, other, order.len() - 1);
    }
    assert(order =~= other);
}

/// The symbols of the book in the order in which the client considers
/// them, as positions in the book: least held first, and among equally
/// held symbols the one seen first. A symbol of which the client holds
/// nothing thus comes before every symbol that it holds.
pub fn priority_order(account: &ClientAccount, prices: &PriceBook) -> (order: Vec<usize>)
    requires
        account.wf(),
        prices.wf(),
    ensures
        is_priority_order(account@, prices.symbols(), order@),
        order@ == priority_of(account@, prices.symbols()),
{
    let held: Vec<u64> = held_by_symbol(account, prices);
    let order: Vec<usize> = stable_order(&held);
    proof {
        assert forall|j: int, k: int| 0 <= j < k < order@.len() implies considered_before(
            account@,
            prices.symbols(),
            #[trigger] order@[j] as int,
            #[trigger] order@[k] as int,
        ) by {
            assert(ranks_before(held@, order@[j] as int, order@[k] as int));
        }
        lemma_priority_order_is_unique(account@, prices.symbols(), order@);
    }
    order
}

/// A priority order lists no position twice.
pub proof fn lemma_priority_lists_once(
    account: crate::ledger::AccountView,
    symbols: Seq<Seq<char>>,
    order: Seq<usize>,
    j: int,
    k: int,
)
    requires
        is_priority_order(account, symbols, order),
        0 <= j < order.len(),
        0 <= k < order.len(),
        j != k,
    ensures
        order[j] != order[k],
{
    if j < k {
        assert(considered_before(account, symbols, order[j] as int, order[k] as int));
    } else {
        assert(considered_before(account, symbols, order[k] as int, order[j] as int));
    }
}

/// In a priority order, a symbol of which nothing is held comes before
/// every symbol of which something is held.
pub proof fn lemma_unheld_symbols_first(
    account: crate::ledger::AccountView,
    symbols: Seq<Seq<char>>,
    order: Seq<usize>,
    j: int,
    k: int,
)
    requires
        is_priority_order(account, symbols, order),
        0 <= j < order.len(),
        0 <= k < order.len(),
        account.quantity(symbols[order[j] as int]) == 0,
        account.quantity(symbols[order[k] as int]) > 0,
    ensures
        j < k,
{
    if k < j {
        assert(considered_before(account, symbols, order[k] as int, order[j] as int));
    }
}

} // verus!
