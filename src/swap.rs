//! Single-pool pricing: asset resolution, precision rescaling, and the
//! forward and reverse solvers of both curve families.
use vstd::prelude::*;
use crate::arith::{
    checked_mul_div, integer_of, lemma_ten_pow_pos, max_u128, mul_div_spec, pow10, ten_pow, to_integer,
    to_wide, wide_of, WIDE_DECIMALS,
};
use crate::fees::{
    base_rate, before_fees, before_fees_of, compute_fee, deduct_fees, extra_fees_of, fee_of, lemma_fee_inversion,
    lemma_fee_le,
};
use crate::stable::{ann_of, compute_ann, stable_d_of, stable_y_of, stableswap_d, stableswap_y};
use crate::types::{ContractError, PoolFee, FEE_ONE, PoolInfo, PoolType, ReverseSimulationResponse, SimulationResponse};

verus! {

/// `amount` with `from` fractional digits, expressed with `to` fractional
/// digits: multiplied up, or divided down with truncation.
pub open spec fn rescale_of(amount: int, from: nat, to: nat) -> Option<int> {
    if to >= from {
        let v = amount * ten_pow((to - from) as nat);
        if v > max_u128() { None } else { Some(v) }
    } else {
        Some(amount / ten_pow((from - to) as nat))
    }
}

/// Rescales an amount between two decimal counts, failing where it would
/// leave 128 bits.
pub fn rescale(amount: u128, from: u8, to: u8) -> (r: Option<u128>)
    requires
        from <= WIDE_DECIMALS,
        to <= WIDE_DECIMALS,
    ensures
        r matches Some(v) ==> rescale_of(amount as int, from as nat, to as nat) == Some(v as int),
        r is None ==> rescale_of(amount as int, from as nat, to as nat) is None,
{
    if to >= from {
        let f = pow10((to - from) as u32);
        amount.checked_mul(f)
    } else {
        let f = pow10((from - to) as u32);
        proof {
            lemma_ten_pow_pos((from - to) as nat);
        }
        Some(amount / f)
    }
}

/// Position of the first of `denoms` equal to `denom`.
pub open spec fn denom_index(denoms: Seq<String>, denom: Seq<char>) -> Option<int> {
    if exists|i: int| 0 <= i < denoms.len() && #[trigger] denoms[i]@ == denom {
        Some(choose|i: int| 0 <= i < denoms.len() && #[trigger] denoms[i]@ == denom
            && forall|j: int| 0 <= j < i ==> denoms[j]@ != denom)
    } else {
        None
    }
}

proof fn lemma_denom_index_first(denoms: Seq<String>, denom: Seq<char>, i: int)
    requires
        0 <= i < denoms.len(),
        denoms[i]@ == denom,
        forall|j: int| 0 <= j < i ==> denoms[j]@ != denom,
    ensures
        denom_index(denoms, denom) == Some(i),
{
    let p = |k: int| 0 <= k < denoms.len() && denoms[k]@ == denom
        && forall|j: int| 0 <= j < k ==> denoms[j]@ != denom;
    assert(p(i));
    let k = choose|k: int| 0 <= k < denoms.len() && #[trigger] denoms[k]@ == denom
        && forall|j: int| 0 <= j < k ==> denoms[j]@ != denom;
    assert(denoms[k]@ == denom);
    if k < i {
        assert(denoms[k]@ != denom);
    }
    if k > i {
        assert(denoms[i]@ != denom);
    }
}

/// The index of `denom` among `denoms`, the first one if it occurs twice.
pub fn find_denom(denoms: &Vec<String>, denom: &String) -> (r: Option<usize>)
    ensures
        r matches Some(i) ==> denom_index(denoms@, denom@) == Some(i as int) && i < denoms@.len(),
        r is None ==> denom_index(denoms@, denom@) is None,
{
    let mut i: usize = 0;
    while i < denoms.len()
        invariant
            i <= denoms@.len(),
            forall|j: int| 0 <= j < i ==> denoms@[j]@ != denom@,
        decreases denoms@.len() - i,
    {
        if denoms[i].eq(denom) {
            proof {
                lemma_denom_index_first(denoms@, denom@, i as int);
            }
            return Some(i);
        }
        i = i + 1;
    }
    None
}

/// The offer and ask positions of a pool for two denoms.
pub open spec fn asset_indexes_of(pool: &PoolInfo, offer: Seq<char>, ask: Seq<char>) -> Result<(int, int), ContractError> {
    match (denom_index(pool.asset_denoms@, offer), denom_index(pool.asset_denoms@, ask)) {
        (Some(o), Some(a)) => Ok((o, a)),
        _ => Err(ContractError::AssetMismatch),
    }
}

/// Resolves the offer and ask denoms of a swap to their positions in the
/// pool. The first denom is always the offer side.
pub fn get_asset_indexes_in_pool(pool: &PoolInfo, offer: &String, ask: &String) -> (r: Result<(usize, usize), ContractError>)
    requires
        pool.wf(),
    ensures
        r matches Ok(t) ==> asset_indexes_of(pool, offer@, ask@) == Ok::<(int, int), ContractError>((t.0 as int, t.1 as int))
            && t.0 < pool.assets@.len() && t.1 < pool.assets@.len(),
        r matches Err(e) ==> asset_indexes_of(pool, offer@, ask@) == Err::<(int, int), ContractError>(e),
{
    let o = find_denom(&pool.asset_denoms, offer);
    let a = find_denom(&pool.asset_denoms, ask);
    match (o, a) {
        (Some(o), Some(a)) => Ok((o, a)),
        _ => Err(ContractError::AssetMismatch),
    }
}

/// Fees on a gross output and what is left of it, as a simulation result.
pub open spec fn net_of_fees(gross: int, spread: int, fees: &PoolFee) -> Result<SimulationResponse, ContractError> {
    let s = fee_of(gross, fees.swap_fee);
    let p = fee_of(gross, fees.protocol_fee);
    let b = fee_of(gross, fees.burn_fee);
    let e = extra_fees_of(gross, fees.extra_fees@);
    if s + p + b + e > gross {
        Err(ContractError::ArithmeticUnderflow)
    } else {
        Ok(SimulationResponse {
            return_amount: (gross - (s + p + b + e)) as u128,
            spread_amount: spread as u128,
            swap_fee_amount: s as u128,
            protocol_fee_amount: p as u128,
            burn_fee_amount: b as u128,
            extra_fees_amount: e as u128,
        })
    }
}

fn respond(gross: u128, spread: u128, fees: &PoolFee) -> (r: Result<SimulationResponse, ContractError>)
    requires
        fees.valid(),
    ensures
        r == net_of_fees(gross as int, spread as int, fees),
{
    let (s, p, b, e, left) = deduct_fees(fees, gross)?;
    Ok(SimulationResponse {
        return_amount: left,
        spread_amount: spread,
        swap_fee_amount: s,
        protocol_fee_amount: p,
        burn_fee_amount: b,
        extra_fees_amount: e,
    })
}

/// `a - b`, or zero when `b` is larger.
pub open spec fn saturating(a: int, b: int) -> int {
    if a > b { a - b } else { 0 }
}

/// Constant-product forward pricing: the output before fees is
/// `ask_pool * offer_amount / (offer_pool + offer_amount)`; the spread is
/// what the spot price `ask_pool / offer_pool` would have given beyond it.
pub open spec fn constant_product_swap_of(offer_pool: int, ask_pool: int, offer_amount: int, fees: &PoolFee) -> Result<SimulationResponse, ContractError> {
    if offer_pool == 0 {
        Err(ContractError::DivideByZero)
    } else if offer_pool + offer_amount > max_u128() {
        Err(ContractError::ArithmeticOverflow)
    } else {
        match (mul_div_spec(ask_pool, offer_amount, offer_pool + offer_amount), mul_div_spec(offer_amount, ask_pool, offer_pool)) {
            (Some(gross), Some(spot)) => net_of_fees(gross, saturating(spot, gross), fees),
            _ => Err(ContractError::ArithmeticOverflow),
        }
    }
}

/// Prices an exact offer on a constant-product pool.
pub fn compute_constant_product_swap(offer_pool: u128, ask_pool: u128, offer_amount: u128, fees: &PoolFee) -> (r: Result<SimulationResponse, ContractError>)
    requires
        fees.valid(),
    ensures
        r == constant_product_swap_of(offer_pool as int, ask_pool as int, offer_amount as int, fees),
{
    if offer_pool == 0 {
        return Err(ContractError::DivideByZero);
    }
    let total = match offer_pool.checked_add(offer_amount) {
        Some(t) => t,
        None => return Err(ContractError::ArithmeticOverflow),
    };
    let gross = checked_mul_div(ask_pool, offer_amount, total);
    let spot = checked_mul_div(offer_amount, ask_pool, offer_pool);
    match (gross, spot) {
        (Some(gross), Some(spot)) => {
            let spread = if spot > gross { spot - gross } else { 0 };
            respond(gross, spread, fees)
        },
        _ => Err(ContractError::ArithmeticOverflow),
    }
}

/// Constant-product reverse pricing: the ask amount is grossed up by the
/// swap, protocol and burn rates, and the offer amount is
/// `offer_pool * ask_pool / (ask_pool - before_fees) - offer_pool`.
pub open spec fn constant_product_offer_of(offer_pool: int, ask_pool: int, ask_amount: int, fees: &PoolFee) -> Result<ReverseSimulationResponse, ContractError> {
    if offer_pool == 0 {
        Err(ContractError::DivideByZero)
    } else {
        match before_fees_of(ask_amount, fees) {
            Err(e) => Err(e),
            Ok(bc) => if bc > ask_pool {
                Err(ContractError::ArithmeticUnderflow)
            } else if bc == ask_pool {
                Err(ContractError::DivideByZero)
            } else {
                match mul_div_spec(offer_pool, ask_pool, ask_pool - bc) {
                    None => Err(ContractError::ArithmeticOverflow),
                    Some(q) => if q < offer_pool {
                        Err(ContractError::ArithmeticUnderflow)
                    } else {
                        match mul_div_spec(q - offer_pool, ask_pool, offer_pool) {
                            None => Err(ContractError::ArithmeticOverflow),
                            Some(at_spot) => Ok(ReverseSimulationResponse {
                                offer_amount: (q - offer_pool) as u128,
                                spread_amount: saturating(at_spot, bc) as u128,
                                swap_fee_amount: fee_of(bc, fees.swap_fee) as u128,
                                protocol_fee_amount: fee_of(bc, fees.protocol_fee) as u128,
                                burn_fee_amount: fee_of(bc, fees.burn_fee) as u128,
                            }),
                        }
                    },
                }
            },
        }
    }
}

/// Prices the offer needed for an exact ask on a constant-product pool.
pub fn compute_offer_amount(offer_pool: u128, ask_pool: u128, ask_amount: u128, fees: &PoolFee) -> (r: Result<ReverseSimulationResponse, ContractError>)
    requires
        fees.valid(),
    ensures
        r == constant_product_offer_of(offer_pool as int, ask_pool as int, ask_amount as int, fees),
{
    if offer_pool == 0 {
        return Err(ContractError::DivideByZero);
    }
    let bc = before_fees(ask_amount, fees)?;
    if bc > ask_pool {
        return Err(ContractError::ArithmeticUnderflow);
    }
    if bc == ask_pool {
        return Err(ContractError::DivideByZero);
    }
    let q = match checked_mul_div(offer_pool, ask_pool, ask_pool - bc) {
        Some(q) => q,
        None => return Err(ContractError::ArithmeticOverflow),
    };
    if q < offer_pool {
        return Err(ContractError::ArithmeticUnderflow);
    }
    let offer = q - offer_pool;
    let at_spot = match checked_mul_div(offer, ask_pool, offer_pool) {
        Some(v) => v,
        None => return Err(ContractError::ArithmeticOverflow),
    };
    Ok(ReverseSimulationResponse {
        offer_amount: offer,
        spread_amount: if at_spot > bc { at_spot - bc } else { 0 },
        swap_fee_amount: compute_fee(fees.swap_fee, bc),
        protocol_fee_amount: compute_fee(fees.protocol_fee, bc),
        burn_fee_amount: compute_fee(fees.burn_fee, bc),
    })
}

/// The larger of two decimal counts: the precision the stable solver works at.
pub open spec fn max_precision(a: nat, b: nat) -> nat {
    if a >= b { a } else { b }
}

/// Stable forward pricing: the reserves and the offer are brought to the
/// larger precision, the invariant of the reserves is found, and the new ask
/// reserve that keeps it once the offer is added; the output before fees is
/// the drop of the ask reserve less one unit kept back against the solver's
/// rounding, brought back to the ask precision. The spread
/// is what a one-to-one price would have given beyond it.
pub open spec fn stable_swap_of(n: int, amp: int, offer_pool: int, ask_pool: int, offer_amount: int, od: nat, ad: nat, fees: &PoolFee) -> Result<SimulationResponse, ContractError> {
    let p = max_precision(od, ad);
    match (rescale_of(offer_pool, od, p), rescale_of(ask_pool, ad, p), rescale_of(offer_amount, od, p), ann_of(amp, n, n as nat), rescale_of(offer_amount, od, ad)) {
        (Some(x), Some(y), Some(dx), Some(ann), Some(spot)) => if x + dx > max_u128() {
            Err(ContractError::ArithmeticOverflow)
        } else {
            match stable_d_of(n, ann, x, y) {
                Err(e) => Err(e),
                Ok(d) => match stable_y_of(n, ann, d, x + dx) {
                    Err(e) => Err(e),
                    Ok(ny) => {
                        match rescale_of(saturating(y, ny + 1), p, ad) {
                            None => Err(ContractError::ArithmeticOverflow),
                            Some(gross) => net_of_fees(gross, saturating(spot, gross), fees),
                        }
                    },
                },
            }
        },
        _ => Err(ContractError::ArithmeticOverflow),
    }
}

/// Prices an exact offer on a stable pool of `n` assets.
pub fn compute_stable_swap(n: u128, amp: u64, offer_pool: u128, ask_pool: u128, offer_amount: u128, od: u8, ad: u8, fees: &PoolFee) -> (r: Result<SimulationResponse, ContractError>)
    requires
        fees.valid(),
        od <= WIDE_DECIMALS,
        ad <= WIDE_DECIMALS,
    ensures
        r == stable_swap_of(n as int, amp as int, offer_pool as int, ask_pool as int, offer_amount as int, od as nat, ad as nat, fees),
{
    let p: u8 = if od >= ad { od } else { ad };
    let scaled = (rescale(offer_pool, od, p), rescale(ask_pool, ad, p), rescale(offer_amount, od, p), compute_ann(amp, n), rescale(offer_amount, od, ad));
    let (x, y, dx, ann, spot) = match scaled {
        (Some(x), Some(y), Some(dx), Some(ann), Some(spot)) => (x, y, dx, ann, spot),
        _ => return Err(ContractError::ArithmeticOverflow),
    };
    let new_x = match x.checked_add(dx) {
        Some(v) => v,
        None => return Err(ContractError::ArithmeticOverflow),
    };
    let d = stableswap_d(n, ann, x, y)?;
    let ny = stableswap_y(n, ann, d, new_x)?;
    let drop = if y > ny { y - ny - 1 } else { 0 };
    let gross = match rescale(drop, p, ad) {
        Some(v) => v,
        None => return Err(ContractError::ArithmeticOverflow),
    };
    respond(gross, if spot > gross { spot - gross } else { 0 }, fees)
}

/// Stable reverse pricing: the ask amount is grossed up by the swap, protocol
/// and burn rates in the wide representation; the invariant of the reserves
/// at the larger precision is found, and the new offer reserve that keeps it
/// once the grossed-up amount leaves the ask reserve. The offer amount is the
/// rise of the offer reserve, brought back to the offer precision; the fees
/// are taken on the grossed-up amount at the ask precision.
pub open spec fn stable_offer_of(n: int, amp: int, offer_pool: int, ask_pool: int, ask_amount: int, od: nat, ad: nat, fees: &PoolFee) -> Result<ReverseSimulationResponse, ContractError> {
    let p = max_precision(od, ad);
    if wide_of(ask_amount, ad) > max_u128() {
        Err(ContractError::ArithmeticOverflow)
    } else {
        match before_fees_of(wide_of(ask_amount, ad), fees) {
            Err(e) => Err(e),
            Ok(bf) => match (rescale_of(offer_pool, od, p), rescale_of(ask_pool, ad, p), ann_of(amp, n, n as nat)) {
                (Some(x), Some(y), Some(ann)) => match stable_d_of(n, ann, x, y) {
                    Err(e) => Err(e),
                    Ok(d) => if integer_of(bf, p) > y {
                        Err(ContractError::ArithmeticUnderflow)
                    } else {
                        match stable_y_of(n, ann, d, y - integer_of(bf, p)) {
                            Err(e) => Err(e),
                            Ok(nx) => if nx < x {
                                Err(ContractError::ArithmeticUnderflow)
                            } else {
                                match rescale_of(nx - x, p, od) {
                                    None => Err(ContractError::ArithmeticOverflow),
                                    Some(offer) => Ok(ReverseSimulationResponse {
                                        offer_amount: offer as u128,
                                        spread_amount: saturating(offer, integer_of(bf, od)) as u128,
                                        swap_fee_amount: fee_of(integer_of(bf, ad), fees.swap_fee) as u128,
                                        protocol_fee_amount: fee_of(integer_of(bf, ad), fees.protocol_fee) as u128,
                                        burn_fee_amount: fee_of(integer_of(bf, ad), fees.burn_fee) as u128,
                                    }),
                                }
                            },
                        }
                    },
                },
                _ => Err(ContractError::ArithmeticOverflow),
            },
        }
    }
}

/// Prices the offer needed for an exact ask on a stable pool of `n` assets.
pub fn compute_stable_offer_amount(n: u128, amp: u64, offer_pool: u128, ask_pool: u128, ask_amount: u128, od: u8, ad: u8, fees: &PoolFee) -> (r: Result<ReverseSimulationResponse, ContractError>)
    requires
        fees.valid(),
        od <= WIDE_DECIMALS,
        ad <= WIDE_DECIMALS,
    ensures
        r == stable_offer_of(n as int, amp as int, offer_pool as int, ask_pool as int, ask_amount as int, od as nat, ad as nat, fees),
{
    let p: u8 = if od >= ad { od } else { ad };
    let wide_ask = match to_wide(ask_amount, ad) {
        Some(v) => v,
        None => return Err(ContractError::ArithmeticOverflow),
    };
    let bf = before_fees(wide_ask, fees)?;
    let (x, y, ann) = match (rescale(offer_pool, od, p), rescale(ask_pool, ad, p), compute_ann(amp, n)) {
        (Some(x), Some(y), Some(ann)) => (x, y, ann),
        _ => return Err(ContractError::ArithmeticOverflow),
    };
    let d = stableswap_d(n, ann, x, y)?;
    let target = to_integer(bf, p);
    if target > y {
        return Err(ContractError::ArithmeticUnderflow);
    }
    let nx = stableswap_y(n, ann, d, y - target)?;
    if nx < x {
        return Err(ContractError::ArithmeticUnderflow);
    }
    let offer = match rescale(nx - x, p, od) {
        Some(v) => v,
        None => return Err(ContractError::ArithmeticOverflow),
    };
    let bf_offer = to_integer(bf, od);
    let bf_ask = to_integer(bf, ad);
    Ok(ReverseSimulationResponse {
        offer_amount: offer,
        spread_amount: if offer > bf_offer { offer - bf_offer } else { 0 },
        swap_fee_amount: compute_fee(fees.swap_fee, bf_ask),
        protocol_fee_amount: compute_fee(fees.protocol_fee, bf_ask),
        burn_fee_amount: compute_fee(fees.burn_fee, bf_ask),
    })
}

/// Forward pricing by curve family.
pub open spec fn compute_swap_of(n: int, offer_pool: int, ask_pool: int, offer_amount: int, fees: &PoolFee, pool_type: PoolType, od: nat, ad: nat) -> Result<SimulationResponse, ContractError> {
    match pool_type {
        PoolType::ConstantProduct => constant_product_swap_of(offer_pool, ask_pool, offer_amount, fees),
        PoolType::StableSwap { amp } => stable_swap_of(n, amp as int, offer_pool, ask_pool, offer_amount, od, ad, fees),
    }
}

/// Prices an exact offer against a pool's reserves, by its curve family.
pub fn compute_swap(n: u128, offer_pool: u128, ask_pool: u128, offer_amount: u128, fees: &PoolFee, pool_type: PoolType, od: u8, ad: u8) -> (r: Result<SimulationResponse, ContractError>)
    requires
        fees.valid(),
        od <= WIDE_DECIMALS,
        ad <= WIDE_DECIMALS,
    ensures
        r == compute_swap_of(n as int, offer_pool as int, ask_pool as int, offer_amount as int, fees, pool_type, od as nat, ad as nat),
{
    match pool_type {
        PoolType::ConstantProduct => compute_constant_product_swap(offer_pool, ask_pool, offer_amount, fees),
        PoolType::StableSwap { amp } => compute_stable_swap(n, amp, offer_pool, ask_pool, offer_amount, od, ad, fees),
    }
}

/// On a constant-product pool without fees, reverse-pricing the return of a
/// forward swap never asks for more than the offer that produced it, and
/// falls short of it by at most one unit of the ask asset at the price after
/// the swap, `(offer_pool + offer_amount) / (ask_pool - return)`, plus one.
pub proof fn lemma_no_fee_round_trip_bound(
    offer_pool: u128,
    ask_pool: u128,
    offer_amount: u128,
    fees: &PoolFee,
    forward: SimulationResponse,
    back: ReverseSimulationResponse,
)
    requires
        fees.swap_fee.share == 0,
        fees.protocol_fee.share == 0,
        fees.burn_fee.share == 0,
        fees.extra_fees@.len() == 0,
        constant_product_swap_of(offer_pool as int, ask_pool as int, offer_amount as int, fees)
            == Ok::<SimulationResponse, ContractError>(forward),
        constant_product_offer_of(offer_pool as int, ask_pool as int, forward.return_amount as int, fees)
            == Ok::<ReverseSimulationResponse, ContractError>(back),
    ensures
        back.offer_amount <= offer_amount,
        offer_amount <= back.offer_amount + (offer_pool + offer_amount) / (ask_pool - forward.return_amount) + 1,
{
    let ro = offer_pool as int;
    let ra = ask_pool as int;
    let a = offer_amount as int;
    let total = ro + a;
    let gross = (ra * a) / total;
    assert(fee_of(gross, fees.swap_fee) == 0);
    assert(fee_of(gross, fees.protocol_fee) == 0);
    assert(fee_of(gross, fees.burn_fee) == 0);
    assert(extra_fees_of(gross, fees.extra_fees@) == 0);
    assert(forward.return_amount as int == gross);
    let one = FEE_ONE as int;
    vstd::arithmetic::div_mod::lemma_div_by_multiple(gross, one);
    assert(gross * one / one == gross);
    assert(before_fees_of(gross, fees) == Ok::<int, ContractError>(gross));
    let den = ra - gross;
    assert(den > 0);
    let q = (ro * ra) / den;
    assert(back.offer_amount as int == q - ro);
    vstd::arithmetic::div_mod::lemma_fundamental_div_mod(ra * a, total);
    vstd::arithmetic::div_mod::lemma_mod_bound(ra * a, total);
    assert(total * gross <= ra * a);
    assert(den * total >= ro * ra) by (nonlinear_arith)
        requires
            total * gross <= ra * a,
            den == ra - gross,
            total == ro + a;
    vstd::arithmetic::div_mod::lemma_div_is_ordered(ro * ra, den * total, den);
    vstd::arithmetic::div_mod::lemma_div_by_multiple(total, den);
    assert(den * total == total * den) by (nonlinear_arith);
    assert(q <= total);
    // the lower bound
    assert(total * gross > ra * a - total);
    assert(den * total < ro * ra + total) by (nonlinear_arith)
        requires
            total * gross > ra * a - total,
            den == ra - gross,
            total == ro + a;
    vstd::arithmetic::div_mod::lemma_fundamental_div_mod(ro * ra, den);
    vstd::arithmetic::div_mod::lemma_mod_bound(ro * ra, den);
    assert(den * q > ro * ra - den);
    let k = total / den;
    vstd::arithmetic::div_mod::lemma_fundamental_div_mod(total, den);
    vstd::arithmetic::div_mod::lemma_mod_bound(total, den);
    assert(total < den * (k + 1)) by (nonlinear_arith)
        requires
            total == den * k + total % den,
            total % den < den;
    assert(den * (q + k + 2) > den * total) by (nonlinear_arith)
        requires
            den * q > ro * ra - den,
            den * total < ro * ra + total,
            total < den * (k + 1);
    assert(q + k + 2 > total) by (nonlinear_arith)
        requires
            den * (q + k + 2) > den * total,
            den > 0;
}

/// Reverse-pricing an ask amount `x` on a constant-product pool whose swap,
/// protocol and burn rates sum to `f < 1` grosses it up to `x / (1 - f)`,
/// and the three fees reported add up to the excess over `x`, less at most
/// two units of truncation.
pub proof fn lemma_reverse_fee_breakdown(
    offer_pool: u128,
    ask_pool: u128,
    ask_amount: u128,
    fees: &PoolFee,
    back: ReverseSimulationResponse,
)
    requires
        fees.valid(),
        base_rate(fees) < FEE_ONE as int,
        constant_product_offer_of(offer_pool as int, ask_pool as int, ask_amount as int, fees)
            == Ok::<ReverseSimulationResponse, ContractError>(back),
    ensures
        ({
            let before = ask_amount as int * FEE_ONE as int / (FEE_ONE as int - base_rate(fees));
            let charged = back.swap_fee_amount as int + back.protocol_fee_amount as int + back.burn_fee_amount as int;
            before - ask_amount - 2 <= charged <= before - ask_amount
        }),
{
    let bc = before_fees_of(ask_amount as int, fees)->Ok_0;
    assert(before_fees_of(ask_amount as int, fees) is Ok);
    assert(0 <= bc <= max_u128());
    lemma_fee_inversion(ask_amount, fees, bc);
    lemma_fee_le(bc, fees.swap_fee.share as int);
    lemma_fee_le(bc, fees.protocol_fee.share as int);
    lemma_fee_le(bc, fees.burn_fee.share as int);
}

/// Reverse-pricing an ask amount `x` on a stable pool whose swap, protocol
/// and burn rates sum to `f < 1` takes each fee on `x / (1 - f)`, floored, at
/// the ask precision; the three fees add up to its excess over `x`, less at
/// most two units of truncation.
pub proof fn lemma_stable_reverse_fee_breakdown(
    n: int,
    amp: int,
    offer_pool: u128,
    ask_pool: u128,
    ask_amount: u128,
    od: nat,
    ad: nat,
    fees: &PoolFee,
    back: ReverseSimulationResponse,
)
    requires
        fees.valid(),
        base_rate(fees) < FEE_ONE as int,
        ad <= WIDE_DECIMALS,
        stable_offer_of(n, amp, offer_pool as int, ask_pool as int, ask_amount as int, od, ad, fees)
            == Ok::<ReverseSimulationResponse, ContractError>(back),
    ensures
        ({
            let before = ask_amount as int * FEE_ONE as int / (FEE_ONE as int - base_rate(fees));
            let charged = back.swap_fee_amount as int + back.protocol_fee_amount as int + back.burn_fee_amount as int;
            &&& back.swap_fee_amount as int == fee_of(before, fees.swap_fee)
            &&& back.protocol_fee_amount as int == fee_of(before, fees.protocol_fee)
            &&& back.burn_fee_amount as int == fee_of(before, fees.burn_fee)
            &&& before - ask_amount - 2 <= charged <= before - ask_amount
        }),
{
    let one = FEE_ONE as int;
    let g = one - base_rate(fees);
    let x = ask_amount as int;
    let s = ten_pow((WIDE_DECIMALS - ad) as nat);
    lemma_ten_pow_pos((WIDE_DECIMALS - ad) as nat);
    let w = wide_of(x, ad);
    assert(w <= max_u128());
    assert(before_fees_of(w, fees) is Ok);
    let bf = before_fees_of(w, fees)->Ok_0;
    assert(bf == (w * one) / g && bf <= max_u128());
    let b = (x * one) / g;
    assert(x * one >= 0) by (nonlinear_arith)
        requires
            x >= 0,
            one > 0;
    assert(w * one == s * (x * one)) by (nonlinear_arith)
        requires
            w == x * s;
    assert(w * one >= 0) by (nonlinear_arith)
        requires
            w * one == s * (x * one),
            s > 0,
            x * one >= 0;
    vstd::arithmetic::div_mod::lemma_div_denominator(w * one, g, s);
    vstd::arithmetic::div_mod::lemma_div_multiples_vanish_quotient(s, x * one, g);
    assert(g * s == s * g) by (nonlinear_arith);
    assert(integer_of(bf, ad) == b);
    vstd::arithmetic::div_mod::lemma_fundamental_div_mod(bf, s);
    vstd::arithmetic::div_mod::lemma_mod_bound(bf, s);
    vstd::arithmetic::div_mod::lemma_div_pos_is_pos(bf, s);
    assert(b <= bf) by (nonlinear_arith)
        requires
            b == bf / s,
            bf == s * (bf / s) + bf % s,
            bf % s >= 0,
            b >= 0,
            s >= 1;
    assert(before_fees_of(x, fees) == Ok::<int, ContractError>(b));
    lemma_fee_inversion(ask_amount, fees, b);
    lemma_fee_le(b, fees.swap_fee.share as int);
    lemma_fee_le(b, fees.protocol_fee.share as int);
    lemma_fee_le(b, fees.burn_fee.share as int);
}

/// On a constant-product pool with swap, protocol and burn rates summing to
/// less than one and no extra fees, reverse-pricing the return of a forward
/// swap falls short of the offer that produced it by at most one unit of the
/// ask asset at the price after the swap,
/// `(offer_pool + offer_amount) / (ask_pool - output before fees)`, plus one.
pub proof fn lemma_round_trip_lower_bound(
    offer_pool: u128,
    ask_pool: u128,
    offer_amount: u128,
    fees: &PoolFee,
    forward: SimulationResponse,
    back: ReverseSimulationResponse,
)
    requires
        fees.valid(),
        base_rate(fees) < FEE_ONE as int,
        fees.extra_fees@.len() == 0,
        constant_product_swap_of(offer_pool as int, ask_pool as int, offer_amount as int, fees)
            == Ok::<SimulationResponse, ContractError>(forward),
        constant_product_offer_of(offer_pool as int, ask_pool as int, forward.return_amount as int, fees)
            == Ok::<ReverseSimulationResponse, ContractError>(back),
    ensures
        ({
            let gross = forward.return_amount as int + forward.swap_fee_amount as int
                + forward.protocol_fee_amount as int + forward.burn_fee_amount as int;
            offer_amount <= back.offer_amount + (offer_pool + offer_amount) / (ask_pool - gross) + 1
        }),
{
    let ro = offer_pool as int;
    let ra = ask_pool as int;
    let a = offer_amount as int;
    let total = ro + a;
    let gross = (ra * a) / total;
    let one = FEE_ONE as int;
    let f = base_rate(fees);
    let g = one - f;
    let s1 = fees.swap_fee.share as int;
    let s2 = fees.protocol_fee.share as int;
    let s3 = fees.burn_fee.share as int;
    let q1 = fee_of(gross, fees.swap_fee);
    let q2 = fee_of(gross, fees.protocol_fee);
    let q3 = fee_of(gross, fees.burn_fee);
    assert(extra_fees_of(gross, fees.extra_fees@) == 0);
    vstd::arithmetic::div_mod::lemma_div_pos_is_pos(ra * a, total);
    lemma_fee_le(gross, s1);
    lemma_fee_le(gross, s2);
    lemma_fee_le(gross, s3);
    let ret = gross - (q1 + q2 + q3);
    assert(forward.return_amount as int == ret);
    assert(forward.return_amount as int + forward.swap_fee_amount as int + forward.protocol_fee_amount as int
        + forward.burn_fee_amount as int == gross);
    // the fees take no more than the rate of the output
    vstd::arithmetic::div_mod::lemma_fundamental_div_mod(gross * s1, one);
    vstd::arithmetic::div_mod::lemma_fundamental_div_mod(gross * s2, one);
    vstd::arithmetic::div_mod::lemma_fundamental_div_mod(gross * s3, one);
    vstd::arithmetic::div_mod::lemma_mod_bound(gross * s1, one);
    vstd::arithmetic::div_mod::lemma_mod_bound(gross * s2, one);
    vstd::arithmetic::div_mod::lemma_mod_bound(gross * s3, one);
    assert(one * (q1 + q2 + q3) <= gross * s1 + gross * s2 + gross * s3) by (nonlinear_arith)
        requires
            one * q1 <= gross * s1,
            one * q2 <= gross * s2,
            one * q3 <= gross * s3;
    assert(ret * one >= gross * g) by (nonlinear_arith)
        requires
            one * (q1 + q2 + q3) <= gross * s1 + gross * s2 + gross * s3,
            ret == gross - (q1 + q2 + q3),
            g == one - (s1 + s2 + s3);
    // so grossing the return up again gives at least the output before fees
    assert(before_fees_of(ret, fees) is Ok);
    let bc = before_fees_of(ret, fees)->Ok_0;
    assert(bc == (ret * one) / g);
    assert(gross * g >= 0) by (nonlinear_arith)
        requires
            gross >= 0,
            g > 0;
    vstd::arithmetic::div_mod::lemma_div_is_ordered(gross * g, ret * one, g);
    vstd::arithmetic::div_mod::lemma_div_multiples_vanish(gross, g);
    assert(g * gross == gross * g) by (nonlinear_arith);
    assert(bc >= gross);
    let den = ra - bc;
    assert(den > 0);
    let dg = ra - gross;
    let q = (ro * ra) / den;
    assert(back.offer_amount as int == q - ro);
    assert(ro * ra >= 0) by (nonlinear_arith)
        requires
            ro >= 0,
            ra >= 0;
    vstd::arithmetic::div_mod::lemma_div_is_ordered_by_denominator(ro * ra, den, dg);
    let qg = (ro * ra) / dg;
    assert(q >= qg);
    // the bound for the output before fees
    vstd::arithmetic::div_mod::lemma_fundamental_div_mod(ra * a, total);
    vstd::arithmetic::div_mod::lemma_mod_bound(ra * a, total);
    assert(total * gross > ra * a - total);
    assert(dg * total < ro * ra + total) by (nonlinear_arith)
        requires
            total * gross > ra * a - total,
            dg == ra - gross,
            total == ro + a;
    vstd::arithmetic::div_mod::lemma_fundamental_div_mod(ro * ra, dg);
    vstd::arithmetic::div_mod::lemma_mod_bound(ro * ra, dg);
    assert(dg * qg > ro * ra - dg);
    let k = total / dg;
    vstd::arithmetic::div_mod::lemma_fundamental_div_mod(total, dg);
    vstd::arithmetic::div_mod::lemma_mod_bound(total, dg);
    assert(total < dg * (k + 1)) by (nonlinear_arith)
        requires
            total == dg * k + total % dg,
            total % dg < dg;
    assert(dg * (qg + k + 2) > dg * total) by (nonlinear_arith)
        requires
            dg * qg > ro * ra - dg,
            dg * total < ro * ra + total,
            total < dg * (k + 1);
    assert(qg + k + 2 > total) by (nonlinear_arith)
        requires
            dg * (qg + k + 2) > dg * total,
            dg > 0;
}

/// On a constant-product pool with swap, protocol and burn rates summing to
/// `f < 1` and no extra fees, reverse-pricing the return of a forward swap
/// grosses it up to `before`, which exceeds the output before fees by less
/// than `3 / (1 - f)` units; the offer asked exceeds the original one by at
/// most that excess priced at `(offer_pool + offer_amount) / (ask_pool - before)`.
pub proof fn lemma_round_trip_upper_bound(
    offer_pool: u128,
    ask_pool: u128,
    offer_amount: u128,
    fees: &PoolFee,
    forward: SimulationResponse,
    back: ReverseSimulationResponse,
)
    requires
        fees.valid(),
        base_rate(fees) < FEE_ONE as int,
        fees.extra_fees@.len() == 0,
        constant_product_swap_of(offer_pool as int, ask_pool as int, offer_amount as int, fees)
            == Ok::<SimulationResponse, ContractError>(forward),
        constant_product_offer_of(offer_pool as int, ask_pool as int, forward.return_amount as int, fees)
            == Ok::<ReverseSimulationResponse, ContractError>(back),
    ensures
        ({
            let gross = forward.return_amount as int + forward.swap_fee_amount as int
                + forward.protocol_fee_amount as int + forward.burn_fee_amount as int;
            let g = FEE_ONE as int - base_rate(fees);
            let before = forward.return_amount as int * FEE_ONE as int / g;
            &&& gross <= before < ask_pool
            &&& (before - gross) * g < 3 * FEE_ONE as int
            &&& back.offer_amount <= offer_amount + (before - gross) * (offer_pool + offer_amount) / (ask_pool - before)
        }),
{
    let ro = offer_pool as int;
    let ra = ask_pool as int;
    let a = offer_amount as int;
    let total = ro + a;
    let gross = (ra * a) / total;
    let one = FEE_ONE as int;
    let f = base_rate(fees);
    let g = one - f;
    let s1 = fees.swap_fee.share as int;
    let s2 = fees.protocol_fee.share as int;
    let s3 = fees.burn_fee.share as int;
    let q1 = fee_of(gross, fees.swap_fee);
    let q2 = fee_of(gross, fees.protocol_fee);
    let q3 = fee_of(gross, fees.burn_fee);
    assert(extra_fees_of(gross, fees.extra_fees@) == 0);
    vstd::arithmetic::div_mod::lemma_div_pos_is_pos(ra * a, total);
    lemma_fee_le(gross, s1);
    lemma_fee_le(gross, s2);
    lemma_fee_le(gross, s3);
    let ret = gross - (q1 + q2 + q3);
    assert(forward.return_amount as int == ret);
    assert(forward.return_amount as int + forward.swap_fee_amount as int + forward.protocol_fee_amount as int
        + forward.burn_fee_amount as int == gross);
    vstd::arithmetic::div_mod::lemma_fundamental_div_mod(gross * s1, one);
    vstd::arithmetic::div_mod::lemma_fundamental_div_mod(gross * s2, one);
    vstd::arithmetic::div_mod::lemma_fundamental_div_mod(gross * s3, one);
    vstd::arithmetic::div_mod::lemma_mod_bound(gross * s1, one);
    vstd::arithmetic::div_mod::lemma_mod_bound(gross * s2, one);
    vstd::arithmetic::div_mod::lemma_mod_bound(gross * s3, one);
    assert(one * (q1 + q2 + q3) <= gross * s1 + gross * s2 + gross * s3) by (nonlinear_arith)
        requires
            one * q1 <= gross * s1,
            one * q2 <= gross * s2,
            one * q3 <= gross * s3;
    assert(one * (q1 + q2 + q3) > gross * s1 + gross * s2 + gross * s3 - 3 * one) by (nonlinear_arith)
        requires
            gross * s1 == one * q1 + (gross * s1) % one,
            gross * s2 == one * q2 + (gross * s2) % one,
            gross * s3 == one * q3 + (gross * s3) % one,
            (gross * s1) % one < one,
            (gross * s2) % one < one,
            (gross * s3) % one < one;
    assert(gross * g <= ret * one < gross * g + 3 * one) by (nonlinear_arith)
        requires
            one * (q1 + q2 + q3) <= gross * s1 + gross * s2 + gross * s3,
            one * (q1 + q2 + q3) > gross * s1 + gross * s2 + gross * s3 - 3 * one,
            ret == gross - (q1 + q2 + q3),
            g == one - (s1 + s2 + s3);
    assert(before_fees_of(ret, fees) is Ok);
    let bc = before_fees_of(ret, fees)->Ok_0;
    assert(bc == (ret * one) / g);
    assert(gross * g >= 0) by (nonlinear_arith)
        requires
            gross >= 0,
            g > 0;
    vstd::arithmetic::div_mod::lemma_div_is_ordered(gross * g, ret * one, g);
    vstd::arithmetic::div_mod::lemma_div_multiples_vanish(gross, g);
    assert(g * gross == gross * g) by (nonlinear_arith);
    assert(bc >= gross);
    vstd::arithmetic::div_mod::lemma_fundamental_div_mod(ret * one, g);
    vstd::arithmetic::div_mod::lemma_mod_bound(ret * one, g);
    assert((bc - gross) * g < 3 * one) by (nonlinear_arith)
        requires
            ret * one == g * bc + (ret * one) % g,
            (ret * one) % g >= 0,
            ret * one < gross * g + 3 * one;
    let den = ra - bc;
    assert(den > 0);
    let c = bc - gross;
    let dg = ra - gross;
    let q = (ro * ra) / den;
    assert(back.offer_amount as int == q - ro);
    // the output before fees keeps the product: (ra - gross) * total >= ro * ra
    vstd::arithmetic::div_mod::lemma_fundamental_div_mod(ra * a, total);
    vstd::arithmetic::div_mod::lemma_mod_bound(ra * a, total);
    assert(total * gross <= ra * a);
    assert(dg * total >= ro * ra) by (nonlinear_arith)
        requires
            total * gross <= ra * a,
            dg == ra - gross,
            total == ro + a;
    vstd::arithmetic::div_mod::lemma_fundamental_div_mod(ro * ra, den);
    vstd::arithmetic::div_mod::lemma_mod_bound(ro * ra, den);
    assert(den * (q - total) <= c * total) by (nonlinear_arith)
        requires
            den * q <= ro * ra,
            dg * total >= ro * ra,
            dg == den + c;
    vstd::arithmetic::div_mod::lemma_div_is_ordered(den * (q - total), c * total, den);
    vstd::arithmetic::div_mod::lemma_div_multiples_vanish(q - total, den);
    assert(q - total <= (c * total) / den);
}

} // verus!
