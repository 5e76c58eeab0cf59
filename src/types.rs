//! The data the pricing core reads: pools, fee schedules, swap operations,
//! the results it returns and the errors it reports.
use vstd::prelude::*;
use crate::arith::WIDE_DECIMALS;

verus! {

/// Atomics of a fee share equal to a rate of one (18 fractional digits).
pub const FEE_ONE: u128 = 1_000_000_000_000_000_000;

/// A fractional fee rate, `share / FEE_ONE`.
#[derive(Clone, Copy, Debug, PartialEq, Eq, Structural)]
pub struct Fee {
    pub share: u128,
}

impl Fee {
    /// A rate in `[0, 1)`.
    pub open spec fn valid(self) -> bool {
        self.share < FEE_ONE
    }
}

/// The fee schedule of a pool.
#[derive(Clone, Debug)]
pub struct PoolFee {
    pub protocol_fee: Fee,
    pub swap_fee: Fee,
    pub burn_fee: Fee,
    pub extra_fees: Vec<Fee>,
}

impl PoolFee {
    pub open spec fn valid(&self) -> bool {
        &&& self.protocol_fee.valid()
        &&& self.swap_fee.valid()
        &&& self.burn_fee.valid()
        &&& forall|i: int| 0 <= i < self.extra_fees@.len() ==> (#[trigger] self.extra_fees@[i]).valid()
    }
}

/// The curve family of a pool.
#[derive(Clone, Copy, Debug, PartialEq, Eq, Structural)]
pub enum PoolType {
    ConstantProduct,
    StableSwap { amp: u64 },
}

/// An amount of one denomination.
#[derive(Clone, Debug)]
pub struct Coin {
    pub denom: String,
    pub amount: u128,
}

/// A snapshot of one pool: its assets in order, with their decimal counts
/// and reserves, its curve and its fees.
#[derive(Clone, Debug)]
pub struct PoolInfo {
    pub pool_identifier: String,
    pub asset_denoms: Vec<String>,
    pub lp_denom: String,
    pub asset_decimals: Vec<u8>,
    pub assets: Vec<Coin>,
    pub pool_type: PoolType,
    pub pool_fees: PoolFee,
}

impl PoolInfo {
    /// At least two assets, one denom, decimal count and reserve for each,
    /// decimal counts within the wide precision, and fee rates below one.
    pub open spec fn wf(&self) -> bool {
        &&& self.asset_denoms@.len() >= 2
        &&& self.asset_decimals@.len() == self.asset_denoms@.len()
        &&& self.assets@.len() == self.asset_denoms@.len()
        &&& forall|i: int| 0 <= i < self.asset_decimals@.len() ==> #[trigger] self.asset_decimals@[i] <= WIDE_DECIMALS
        &&& self.pool_fees.valid()
    }

}

/// One hop of a multi-hop swap.
#[derive(Clone, Debug)]
pub enum SwapOperation {
    MantraSwap { token_in_denom: String, token_out_denom: String, pool_identifier: String },
}

/// The failures of a pricing query.
#[derive(Clone, Copy, Debug, PartialEq, Eq, Structural)]
pub enum ContractError {
    AssetMismatch,
    PoolNotFound,
    NoSwapOperationsProvided,
    ArithmeticOverflow,
    ArithmeticUnderflow,
    DivideByZero,
    ConvergeError,
}

/// The result of a forward swap simulation, in the ask asset's precision.
#[derive(Clone, Copy, Debug, PartialEq, Eq, Structural)]
pub struct SimulationResponse {
    pub return_amount: u128,
    pub spread_amount: u128,
    pub swap_fee_amount: u128,
    pub protocol_fee_amount: u128,
    pub burn_fee_amount: u128,
    pub extra_fees_amount: u128,
}

/// The result of a reverse swap simulation.
#[derive(Clone, Copy, Debug, PartialEq, Eq, Structural)]
pub struct ReverseSimulationResponse {
    pub offer_amount: u128,
    pub spread_amount: u128,
    pub swap_fee_amount: u128,
    pub protocol_fee_amount: u128,
    pub burn_fee_amount: u128,
}

/// The decimal count of one asset of one pool.
#[derive(Clone, Debug)]
pub struct AssetDecimalsResponse {
    pub pool_identifier: String,
    pub denom: String,
    pub decimals: u8,
}

/// The amount at the end of a multi-hop simulation.
#[derive(Clone, Copy, Debug, PartialEq, Eq, Structural)]
pub struct SimulateSwapOperationsResponse {
    pub amount: u128,
}

} // verus!
