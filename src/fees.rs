//! The fee engine: fee amounts from rates, and the inversion that recovers a
//! before-fees amount from an amount net of fees.
use vstd::prelude::*;
use crate::arith::{checked_mul_div, mul_div_spec};
use crate::types::{ContractError, Fee, PoolFee, FEE_ONE};

verus! {

/// The fee at `fee`'s rate on `amount`, floored.
pub open spec fn fee_of(amount: int, fee: Fee) -> int {
    amount * fee.share / FEE_ONE as int
}

/// The sum of the extra fees on `amount`.
pub open spec fn extra_fees_of(amount: int, fees: Seq<Fee>) -> int
    decreases fees.len(),
{
    if fees.len() == 0 {
        0
    } else {
        extra_fees_of(amount, fees.drop_last()) + fee_of(amount, fees.last())
    }
}

/// The combined swap, protocol and burn rate, in fee atomics.
pub open spec fn base_rate(fees: &PoolFee) -> int {
    fees.swap_fee.share + fees.protocol_fee.share + fees.burn_fee.share
}

/// The amount before swap, protocol and burn fees whose net is `amount`:
/// `amount / (1 - rate)`, floored; with no inversion when the rate is exactly
/// one, and an underflow when it is above one.
pub open spec fn before_fees_of(amount: int, fees: &PoolFee) -> Result<int, ContractError> {
    let f = base_rate(fees);
    if f > FEE_ONE as int {
        Err(ContractError::ArithmeticUnderflow)
    } else if f == FEE_ONE as int {
        Ok(amount)
    } else {
        match mul_div_spec(amount, FEE_ONE as int, FEE_ONE as int - f) {
            Some(v) => Ok(v),
            None => Err(ContractError::ArithmeticOverflow),
        }
    }
}

/// A fee at a rate below one is neither negative nor above its base.
pub proof fn lemma_fee_le(amount: int, share: int)
    requires
        amount >= 0,
        0 <= share < FEE_ONE as int,
    ensures
        0 <= amount * share / FEE_ONE as int <= amount,
{
    let one = FEE_ONE as int;
    vstd::arithmetic::mul::lemma_mul_inequality(share, one, amount);
    vstd::arithmetic::mul::lemma_mul_nonnegative(amount, share);
    vstd::arithmetic::div_mod::lemma_div_is_ordered(amount * share, amount * one, one);
    vstd::arithmetic::div_mod::lemma_div_by_multiple(amount, one);
    vstd::arithmetic::div_mod::lemma_div_pos_is_pos(amount * share, one);
    assert(share * amount == amount * share) by (nonlinear_arith);
    assert(one * amount == amount * one) by (nonlinear_arith);
}

/// The fee at `fee`'s rate on `amount`; never more than `amount`.
pub fn compute_fee(fee: Fee, amount: u128) -> (r: u128)
    requires
        fee.valid(),
    ensures
        r as int == fee_of(amount as int, fee),
        r <= amount,
{
    proof {
        lemma_fee_le(amount as int, fee.share as int);
    }
    match checked_mul_div(amount, fee.share, FEE_ONE) {
        Some(v) => v,
        None => 0,
    }
}

/// Extra fees at rates below one never sum to a negative amount.
pub proof fn lemma_extra_fees_nonneg(amount: int, fees: Seq<Fee>)
    requires
        amount >= 0,
        forall|i: int| 0 <= i < fees.len() ==> (#[trigger] fees[i]).valid(),
    ensures
        extra_fees_of(amount, fees) >= 0,
    decreases fees.len(),
{
    if fees.len() > 0 {
        lemma_extra_fees_nonneg(amount, fees.drop_last());
        lemma_fee_le(amount, fees.last().share as int);
    }
}

/// Extra fees over a prefix never exceed those over a longer prefix.
pub proof fn lemma_extra_fees_prefix(amount: int, fees: Seq<Fee>, i: int, j: int)
    requires
        amount >= 0,
        0 <= i <= j <= fees.len(),
        forall|k: int| 0 <= k < fees.len() ==> (#[trigger] fees[k]).valid(),
    ensures
        extra_fees_of(amount, fees.subrange(0, i)) <= extra_fees_of(amount, fees.subrange(0, j)),
    decreases j - i,
{
    if i < j {
        lemma_extra_fees_prefix(amount, fees, i, j - 1);
        assert(fees.subrange(0, j).drop_last() =~= fees.subrange(0, j - 1));
        lemma_fee_le(amount, fees[j - 1].share as int);
    }
}

/// Deducts swap, protocol, burn and extra fees of `pool_fees` from `amount`.
/// Returns the fees and what is left: `(swap, protocol, burn, extra, net)`,
/// or an underflow when the fees together exceed `amount`.
pub fn deduct_fees(pool_fees: &PoolFee, amount: u128) -> (r: Result<(u128, u128, u128, u128, u128), ContractError>)
    requires
        pool_fees.valid(),
    ensures
        ({
            let s = fee_of(amount as int, pool_fees.swap_fee);
            let p = fee_of(amount as int, pool_fees.protocol_fee);
            let b = fee_of(amount as int, pool_fees.burn_fee);
            let e = extra_fees_of(amount as int, pool_fees.extra_fees@);
            &&& r is Err <==> s + p + b + e > amount
            &&& r is Err ==> r == Err::<(u128, u128, u128, u128, u128), ContractError>(ContractError::ArithmeticUnderflow)
            &&& r matches Ok(t) ==> t.0 as int == s && t.1 as int == p && t.2 as int == b && t.3 as int == e
                && t.4 as int == amount - (s + p + b + e)
        }),
{
    let s = compute_fee(pool_fees.swap_fee, amount);
    let p = compute_fee(pool_fees.protocol_fee, amount);
    let b = compute_fee(pool_fees.burn_fee, amount);
    let extras = &pool_fees.extra_fees;
    proof {
        lemma_extra_fees_nonneg(amount as int, extras@);
    }
    if s > amount - p {
        return Err(ContractError::ArithmeticUnderflow);
    }
    let mut left: u128 = amount - p - s;
    if b > left {
        return Err(ContractError::ArithmeticUnderflow);
    }
    left = left - b;
    let mut extra: u128 = 0;
    let mut i: usize = 0;
    while i < extras.len()
        invariant
            pool_fees.valid(),
            extras == &pool_fees.extra_fees,
            i <= extras@.len(),
            extra as int == extra_fees_of(amount as int, extras@.subrange(0, i as int)),
            left as int == amount - (s + p + b) - extra,
            s as int == fee_of(amount as int, pool_fees.swap_fee),
            p as int == fee_of(amount as int, pool_fees.protocol_fee),
            b as int == fee_of(amount as int, pool_fees.burn_fee),
        decreases extras@.len() - i,
    {
        let f = compute_fee(extras[i], amount);
        proof {
            assert(extras@.subrange(0, i + 1).drop_last() =~= extras@.subrange(0, i as int));
        }
        if f > left {
            proof {
                lemma_extra_fees_prefix(amount as int, extras@, i + 1, extras@.len() as int);
                assert(extras@.subrange(0, extras@.len() as int) =~= extras@);
            }
            return Err(ContractError::ArithmeticUnderflow);
        }
        left = left - f;
        extra = extra + f;
        i = i + 1;
    }
    proof {
        assert(extras@.subrange(0, extras@.len() as int) =~= extras@);
    }
    Ok((s, p, b, extra, left))
}

/// The before-fees amount whose net of swap, protocol and burn fees is
/// `amount`.
pub fn before_fees(amount: u128, pool_fees: &PoolFee) -> (r: Result<u128, ContractError>)
    requires
        pool_fees.valid(),
    ensures
        r matches Ok(v) ==> before_fees_of(amount as int, pool_fees) == Ok::<int, ContractError>(v as int),
        r matches Err(e) ==> before_fees_of(amount as int, pool_fees) == Err::<int, ContractError>(e),
{
    let f: u128 = pool_fees.swap_fee.share + pool_fees.protocol_fee.share + pool_fees.burn_fee.share;
    if f > FEE_ONE {
        Err(ContractError::ArithmeticUnderflow)
    } else if f == FEE_ONE {
        Ok(amount)
    } else {
        match checked_mul_div(amount, FEE_ONE, FEE_ONE - f) {
            Some(v) => Ok(v),
            None => Err(ContractError::ArithmeticOverflow),
        }
    }
}

proof fn lemma_floor_div(a: int, d: int)
    requires
        d > 0,
    ensures
        d * (a / d) <= a < d * (a / d) + d,
{
    vstd::arithmetic::div_mod::lemma_fundamental_div_mod(a, d);
    vstd::arithmetic::div_mod::lemma_mod_bound(a, d);
}

/// With swap, protocol and burn rates summing to `f < 1`, grossing up an ask
/// amount `x` gives `x / (1 - f)`, floored, and the three fees on that
/// before-fees amount add up to what it exceeds `x` by, less at most two
/// units of truncation.
pub proof fn lemma_fee_inversion(amount: u128, fees: &PoolFee, before: int)
    requires
        fees.valid(),
        base_rate(fees) < FEE_ONE as int,
        before_fees_of(amount as int, fees) == Ok::<int, ContractError>(before),
    ensures
        before == amount as int * FEE_ONE as int / (FEE_ONE as int - base_rate(fees)),
        before - amount - 2 <= fee_of(before, fees.swap_fee) + fee_of(before, fees.protocol_fee)
            + fee_of(before, fees.burn_fee) <= before - amount,
{
    let one = FEE_ONE as int;
    let f = base_rate(fees);
    let g = one - f;
    let x = amount as int;
    let s1 = fees.swap_fee.share as int;
    let s2 = fees.protocol_fee.share as int;
    let s3 = fees.burn_fee.share as int;
    let q1 = fee_of(before, fees.swap_fee);
    let q2 = fee_of(before, fees.protocol_fee);
    let q3 = fee_of(before, fees.burn_fee);
    lemma_floor_div(x * one, g);
    lemma_floor_div(before * s1, one);
    lemma_floor_div(before * s2, one);
    lemma_floor_div(before * s3, one);
    assert(before == (x * one) / g);
    assert(before * g == g * ((x * one) / g)) by (nonlinear_arith)
        requires
            before == (x * one) / g;
    assert(before * g <= x * one < before * g + g);
    assert(one * q1 + one * q2 + one * q3 == one * (q1 + q2 + q3)) by (nonlinear_arith);
    assert(before * s1 + before * s2 + before * s3 == before * one - before * g) by (nonlinear_arith)
        requires
            g == one - (s1 + s2 + s3);
    let total = q1 + q2 + q3;
    assert(one * total <= before * one - before * g);
    assert(one * total > before * one - before * g - 3 * one);
    assert(one * total < one * (before - x + 1)) by (nonlinear_arith)
        requires
            one * total <= before * one - before * g,
            x * one < before * g + g,
            g <= one;
    assert(one * total > one * (before - x - 3)) by (nonlinear_arith)
        requires
            one * total > before * one - before * g - 3 * one,
            before * g <= x * one;
    assert(total < before - x + 1) by (nonlinear_arith)
        requires
            one * total < one * (before - x + 1),
            one > 0;
    assert(total > before - x - 3) by (nonlinear_arith)
        requires
            one * total > one * (before - x - 3),
            one > 0;
}

} // verus!
