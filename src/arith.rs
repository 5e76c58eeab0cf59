//! Integer arithmetic shared by the pricing code: powers of ten, a
//! full-width multiply-then-divide, and the fixed-point precision normalizer.
use vstd::prelude::*;
use cosmwasm_std::{Decimal, Uint128};

verus! {

/// Number of fractional digits of the wide fixed-point representation.
pub const WIDE_DECIMALS: u8 = 18;

/// The largest value a `u128` holds, as a mathematical integer.
pub open spec fn max_u128() -> int {
    u128::MAX as int
}

/// `10^e` as a mathematical integer.
pub open spec fn ten_pow(e: nat) -> int
    decreases e,
{
    if e == 0 {
        1
    } else {
        10 * ten_pow((e - 1) as nat)
    }
}

/// `a * b / c`, floored, when `c` is not zero and the quotient fits a `u128`.
pub open spec fn mul_div_spec(a: int, b: int, c: int) -> Option<int> {
    if c == 0 || (a * b) / c > max_u128() {
        None
    } else {
        Some((a * b) / c)
    }
}

/// Powers of ten are positive.
pub proof fn lemma_ten_pow_pos(e: nat)
    ensures
        ten_pow(e) >= 1,
    decreases e,
{
    if e > 0 {
        lemma_ten_pow_pos((e - 1) as nat);
    }
}

/// `10^e` for exponents that fit a `u128`.
pub fn pow10(e: u32) -> (r: u128)
    requires
        e <= 38,
    ensures
        r as int == ten_pow(e as nat),
{
    let mut r: u128 = 1;
    let mut i: u32 = 0;
    proof {
        reveal_with_fuel(ten_pow, 39);
    }
    while i < e
        invariant
            i <= e,
            e <= 38,
            r as int == ten_pow(i as nat),
            r as int * ten_pow((38 - i) as nat) == 100000000000000000000000000000000000000int,
        decreases e - i,
    {
        proof {
            lemma_ten_pow_pos((37 - i) as nat);
            assert(ten_pow((38 - i) as nat) == 10 * ten_pow((37 - i) as nat));
            assert(r as int * 10 <= 100000000000000000000000000000000000000int) by (nonlinear_arith)
                requires r as int * (10 * ten_pow((37 - i) as nat)) == 100000000000000000000000000000000000000int,
                    ten_pow((37 - i) as nat) >= 1;
            assert((r as int * 10) * ten_pow((37 - i) as nat) == r as int * (10 * ten_pow((37 - i) as nat))) by (nonlinear_arith);
        }
        r = r * 10;
        i = i + 1;
    }
    r
}

/// Relies on cosmwasm_std::Uint128::checked_multiply_ratio: `a * b / c`,
/// floored, computed over 256 bits; an error for a zero divisor or a quotient
/// that does not fit 128 bits.
#[verifier::external_body]
pub(crate) fn checked_mul_div(a: u128, b: u128, c: u128) -> (r: Option<u128>)
    ensures
        r matches Some(v) ==> mul_div_spec(a as int, b as int, c as int) == Some(v as int),
        r is None ==> mul_div_spec(a as int, b as int, c as int) is None,
{
    Uint128::new(a).checked_multiply_ratio(b, c).ok().map(|v| v.u128())
}

/// Relies on cosmwasm_std::Decimal::from_atomics: below 18 places the amount
/// is multiplied by `10^(18 - places)`, failing when that leaves 128 bits.
#[verifier::external_body]
fn decimal_atomics(amount: u128, places: u8) -> (r: Option<u128>)
    requires
        places <= WIDE_DECIMALS,
    ensures
        r matches Some(v) ==> v as int == amount as int * ten_pow((WIDE_DECIMALS - places) as nat),
        r is None ==> amount as int * ten_pow((WIDE_DECIMALS - places) as nat) > max_u128(),
{
    Decimal::from_atomics(Uint128::new(amount), places as u32).ok().map(|d| d.atomics().u128())
}

/// The wide fixed-point value (18 fractional digits) of an amount given with
/// `decimals` fractional digits.
pub open spec fn wide_of(amount: int, decimals: nat) -> int {
    amount * ten_pow((WIDE_DECIMALS - decimals) as nat)
}

/// The integer amount with `decimals` fractional digits of a wide value,
/// truncating the digits beyond `decimals`.
pub open spec fn integer_of(value: int, decimals: nat) -> int {
    value / ten_pow((WIDE_DECIMALS - decimals) as nat)
}

/// Scales `amount`, given with `decimals` fractional digits, up to the wide
/// representation. `None` when the scaled value does not fit 128 bits.
pub fn to_wide(amount: u128, decimals: u8) -> (r: Option<u128>)
    requires
        decimals <= WIDE_DECIMALS,
    ensures
        r matches Some(v) ==> v as int == wide_of(amount as int, decimals as nat),
        r is None <==> wide_of(amount as int, decimals as nat) > max_u128(),
{
    decimal_atomics(amount, decimals)
}

/// Scales a wide value down to `decimals` fractional digits, truncating.
pub fn to_integer(value: u128, decimals: u8) -> (r: u128)
    requires
        decimals <= WIDE_DECIMALS,
    ensures
        r as int == integer_of(value as int, decimals as nat),
{
    let f = pow10((WIDE_DECIMALS - decimals) as u32);
    proof {
        lemma_ten_pow_pos((WIDE_DECIMALS - decimals) as nat);
    }
    value / f
}

/// Scaling an amount up to the wide representation and back down at the same
/// number of decimals gives the amount back.
pub proof fn lemma_precision_round_trip(amount: nat, decimals: nat)
    requires
        decimals <= WIDE_DECIMALS,
    ensures
        integer_of(wide_of(amount as int, decimals), decimals) == amount as int,
{
    let f = ten_pow((WIDE_DECIMALS - decimals) as nat);
    lemma_ten_pow_pos((WIDE_DECIMALS - decimals) as nat);
    vstd::arithmetic::div_mod::lemma_div_by_multiple(amount as int, f);
}

/// The same law for the executable pair: whenever `to_wide` succeeds,
/// `to_integer` gives the amount back.
pub proof fn lemma_to_wide_to_integer(amount: u128, decimals: u8, wide: u128)
    requires
        decimals <= WIDE_DECIMALS,
        wide as int == wide_of(amount as int, decimals as nat),
    ensures
        integer_of(wide as int, decimals as nat) == amount as int,
{
    lemma_precision_round_trip(amount as nat, decimals as nat);
}

} // verus!
