//! Exact arithmetic on amounts of money in minor units.
//!
//! A ratio is applied to an amount as `amount * numerator / denominator`,
//! rounded to the nearest minor unit with halves rounded up.

use vstd::prelude::*;

verus! {

/// `numerator / denominator`, rounded to the nearest integer, halves up.
pub open spec fn round_half_up(numerator: nat, denominator: nat) -> nat
    recommends
        denominator > 0,
{
    if 2 * (numerator % denominator) >= denominator {
        numerator / denominator + 1
    } else {
        numerator / denominator
    }
}

/// `amount * numerator / denominator`, rounded half up.
pub open spec fn scaled(amount: nat, numerator: nat, denominator: nat) -> nat
    recommends
        denominator > 0,
{
    round_half_up(amount * numerator, denominator)
}

/// The price per share of a position built from `old_quantity` shares at
/// `old_average` and `quantity` more at `price`: their quantity-weighted
/// mean, rounded half up.
pub open spec fn weighted_average(
    old_average: nat,
    old_quantity: nat,
    price: nat,
    quantity: nat,
) -> nat
    recommends
        old_quantity + quantity > 0,
{
    round_half_up(old_average * old_quantity + price * quantity, old_quantity + quantity)
}

/// A rounded quotient differs from the exact one by at most half the
/// denominator, and is exact where the division leaves no remainder.
pub proof fn lemma_round_half_up_error(numerator: nat, denominator: nat)
    requires
        denominator > 0,
    ensures
        2 * round_half_up(numerator, denominator) * denominator <= 2 * numerator + denominator,
        2 * numerator < 2 * round_half_up(numerator, denominator) * denominator + denominator,
        numerator % denominator == 0 ==> round_half_up(numerator, denominator) * denominator
            == numerator,
{
    let q = numerator / denominator;
    let r = numerator % denominator;
    assert(numerator == q * denominator + r && r < denominator) by (nonlinear_arith)
        requires
            denominator > 0,
            q == numerator / denominator,
            r == numerator % denominator,
    ;
    assert((q + 1) * denominator == q * denominator + denominator) by (nonlinear_arith);
    assert(2 * (q + 1) * denominator == 2 * (q * denominator) + 2 * denominator)
        by (nonlinear_arith);
    assert(2 * q * denominator == 2 * (q * denominator)) by (nonlinear_arith);
}

/// A rounded quotient stays within any integer bounds that hold of the
/// exact one.
pub proof fn lemma_round_half_up_bounds(numerator: nat, denominator: nat, low: nat, high: nat)
    requires
        denominator > 0,
        low * denominator <= numerator <= high * denominator,
    ensures
        low <= round_half_up(numerator, denominator) <= high,
{
    let q = numerator / denominator;
    let r = numerator % denominator;
    assert(numerator == q * denominator + r && r < denominator) by (nonlinear_arith)
        requires
            denominator > 0,
            q == numerator / denominator,
            r == numerator % denominator,
    ;
    assert(low <= q) by (nonlinear_arith)
        requires
            low * denominator <= q * denominator + r,
            r < denominator,
            denominator > 0,
    ;
    if 2 * r >= denominator {
        assert(q + 1 <= high) by (nonlinear_arith)
            requires
                q * denominator + r <= high * denominator,
                r > 0,
                denominator > 0,
        ;
    } else {
        assert(q <= high) by (nonlinear_arith)
            requires
                q * denominator + r <= high * denominator,
                denominator > 0,
        ;
    }
}

/// A weighted average lies between the two prices it averages.
pub proof fn lemma_weighted_average_between(
    old_average: nat,
    old_quantity: nat,
    price: nat,
    quantity: nat,
)
    requires
        old_quantity + quantity > 0,
    ensures
        old_average <= price ==> old_average <= weighted_average(
            old_average,
            old_quantity,
            price,
            quantity,
        ) <= price || old_quantity == 0,
        price <= old_average ==> price <= weighted_average(
            old_average,
            old_quantity,
            price,
            quantity,
        ) <= old_average || quantity == 0,
        old_quantity == 0 ==> weighted_average(old_average, old_quantity, price, quantity)
            == price,
        quantity == 0 ==> weighted_average(old_average, old_quantity, price, quantity)
            == old_average,
{
    let total = old_average * old_quantity + price * quantity;
    let shares = old_quantity + quantity;
    if old_quantity == 0 {
        assert(total == price * shares) by (nonlinear_arith)
            requires
                total == old_average * old_quantity + price * quantity,
                shares == old_quantity + quantity,
                old_quantity == 0,
        ;
        lemma_round_half_up_bounds(total, shares, price, price);
    }
    if quantity == 0 {
        assert(total == old_average * shares) by (nonlinear_arith)
            requires
                total == old_average * old_quantity + price * quantity,
                shares == old_quantity + quantity,
                quantity == 0,
        ;
        lemma_round_half_up_bounds(total, shares, old_average, old_average);
    }
    if old_average <= price {
        assert(old_average * shares <= total <= price * shares) by (nonlinear_arith)
            requires
                total == old_average * old_quantity + price * quantity,
                shares == old_quantity + quantity,
                old_average <= price,
        ;
        lemma_round_half_up_bounds(total, shares, old_average, price);
    }
    if price <= old_average {
        assert(price * shares <= total <= old_average * shares) by (nonlinear_arith)
            requires
                total == old_average * old_quantity + price * quantity,
                shares == old_quantity + quantity,
                price <= old_average,
        ;
        lemma_round_half_up_bounds(total, shares, price, old_average);
    }
}

/// The product of two 64-bit amounts fits in 128 bits.
pub proof fn lemma_product_fits(a: nat, b: nat)
    requires
        a <= u64::MAX,
        b <= u64::MAX,
    ensures
        a * b <= 0xFFFF_FFFF_FFFF_FFFE_0000_0000_0000_0001,
        a * b <= u128::MAX,
{
    assert(a * b <= 0xFFFF_FFFF_FFFF_FFFF * 0xFFFF_FFFF_FFFF_FFFF) by (nonlinear_arith)
        requires
            a <= 0xFFFF_FFFF_FFFF_FFFF,
            b <= 0xFFFF_FFFF_FFFF_FFFF,
    ;
}

/// What `quantity` shares cost at `price` each.
pub fn order_cost(price: u64, quantity: u64) -> (cost: u128)
    ensures
        cost == price * quantity,
{
    proof {
        lemma_product_fits(price as nat, quantity as nat);
    }
    (price as u128) * (quantity as u128)
}

/// Divides, rounding to the nearest integer with halves up.
pub fn round_half_up_div(numerator: u128, denominator: u128) -> (quotient: u128)
    requires
        denominator > 0,
    ensures
        quotient == round_half_up(numerator as nat, denominator as nat),
{
    let whole: u128 = numerator / denominator;
    let rest: u128 = numerator % denominator;
    if rest >= denominator - rest {
        proof {
            assert(numerator == whole * denominator + rest) by (nonlinear_arith)
                requires
                    denominator > 0,
                    whole == numerator / denominator,
                    rest == numerator % denominator,
            ;
            assert(whole < u128::MAX) by (nonlinear_arith)
                requires
                    numerator == whole * denominator + rest,
                    rest >= denominator - rest,
                    denominator > 0,
                    numerator <= u128::MAX,
            ;
        }
        whole + 1
    } else {
        whole
    }
}

/// Applies the ratio `numerator / denominator` to `amount`, rounding half
/// up. There is no result where the denominator is zero or the scaled
/// amount does not fit in 64 bits.
pub fn scale_amount(amount: u64, numerator: u64, denominator: u64) -> (result: Option<u64>)
    ensures
        denominator == 0 ==> result is None,
        denominator > 0 && scaled(amount as nat, numerator as nat, denominator as nat)
            > u64::MAX ==> result is None,
        denominator > 0 && scaled(amount as nat, numerator as nat, denominator as nat)
            <= u64::MAX ==> result == Some(
            scaled(amount as nat, numerator as nat, denominator as nat) as u64,
        ),
{
    if denominator == 0 {
        return None;
    }
    proof {
        lemma_product_fits(amount as nat, numerator as nat);
    }
    let product: u128 = (amount as u128) * (numerator as u128);
    let rounded: u128 = round_half_up_div(product, denominator as u128);
    if rounded > u64::MAX as u128 {
        None
    } else {
        Some(rounded as u64)
    }
}

/// The average cost of a position after `quantity` shares at `price` join
/// `old_quantity` shares held at `old_average`.
pub fn average_after_buy(old_average: u64, old_quantity: u64, price: u64, quantity: u64) -> (average:
    u64)
    requires
        0 < old_quantity + quantity <= u64::MAX,
    ensures
        average == weighted_average(
            old_average as nat,
            old_quantity as nat,
            price as nat,
            quantity as nat,
        ),
{
    let shares: u64 = old_quantity + quantity;
    let high: u64 = if old_average >= price {
        old_average
    } else {
        price
    };
    proof {
        lemma_product_fits(old_average as nat, old_quantity as nat);
        lemma_product_fits(price as nat, quantity as nat);
        lemma_product_fits(high as nat, shares as nat);
        assert(old_average * old_quantity + price * quantity <= high * shares)
            by (nonlinear_arith)
            requires
                shares == old_quantity + quantity,
                old_average <= high,
                price <= high,
        ;
    }
    let held: u128 = (old_average as u128) * (old_quantity as u128);
    let bought: u128 = (price as u128) * (quantity as u128);
    let total: u128 = held + bought;
    let average: u128 = round_half_up_div(total, shares as u128);
    proof {
        lemma_round_half_up_bounds(total as nat, shares as nat, 0, high as nat);
    }
    average as u64
}

} // verus!
