use pool_pricing::arith::{to_integer, to_wide};
use pool_pricing::fees::{before_fees, compute_fee};
use pool_pricing::queries::{
    page_limit, query_asset_decimals, query_reverse_simulation, query_simulation,
    reverse_simulate_swap_operations, simulate_swap_operations,
};
use pool_pricing::types::{Coin, ContractError, Fee, PoolFee, PoolInfo, PoolType, SwapOperation};

const PERCENT: u128 = 10_000_000_000_000_000;

fn fees(swap: u128, protocol: u128, burn: u128, extra: Vec<u128>) -> PoolFee {
    PoolFee {
        protocol_fee: Fee { share: protocol },
        swap_fee: Fee { share: swap },
        burn_fee: Fee { share: burn },
        extra_fees: extra.into_iter().map(|share| Fee { share }).collect(),
    }
}

fn no_fees() -> PoolFee {
    fees(0, 0, 0, vec![])
}

fn pool(id: &str, assets: Vec<(&str, u8, u128)>, pool_type: PoolType, pool_fees: PoolFee) -> PoolInfo {
    PoolInfo {
        pool_identifier: id.to_string(),
        asset_denoms: assets.iter().map(|a| a.0.to_string()).collect(),
        lp_denom: format!("{}.lp", id),
        asset_decimals: assets.iter().map(|a| a.1).collect(),
        assets: assets.iter().map(|a| Coin { denom: a.0.to_string(), amount: a.2 }).collect(),
        pool_type,
        pool_fees,
    }
}

fn coin(denom: &str, amount: u128) -> Coin {
    Coin { denom: denom.to_string(), amount }
}

fn hop(token_in: &str, token_out: &str, id: &str) -> SwapOperation {
    SwapOperation::MantraSwap {
        token_in_denom: token_in.to_string(),
        token_out_denom: token_out.to_string(),
        pool_identifier: id.to_string(),
    }
}

fn xy_pool() -> PoolInfo {
    pool("xy", vec![("x", 6, 1_000_000), ("y", 6, 1_000_000)], PoolType::ConstantProduct, no_fees())
}

#[test]
fn constant_product_example() {
    let pools = vec![xy_pool()];
    let r = query_simulation(&pools, coin("x", 1_000), "y".to_string(), "xy".to_string()).unwrap();
    assert_eq!(r.return_amount, 999);
    assert_eq!(r.spread_amount, 1);
    assert!(r.return_amount >= 998 && r.spread_amount <= 2);
    assert_eq!(r.swap_fee_amount + r.protocol_fee_amount + r.burn_fee_amount + r.extra_fees_amount, 0);
}

#[test]
fn constant_product_with_fees() {
    let pools = vec![pool(
        "xy",
        vec![("x", 6, 1_000_000), ("y", 6, 1_000_000)],
        PoolType::ConstantProduct,
        fees(PERCENT, PERCENT, 0, vec![]),
    )];
    let r = query_simulation(&pools, coin("x", 1_000), "y".to_string(), "xy".to_string()).unwrap();
    assert_eq!(r.return_amount, 981);
    assert_eq!(r.swap_fee_amount, 9);
    assert_eq!(r.protocol_fee_amount, 9);
    assert_eq!(r.burn_fee_amount, 0);
    assert_eq!(r.spread_amount, 1);
}

#[test]
fn constant_product_extra_fees() {
    let pools = vec![pool(
        "xy",
        vec![("x", 6, 1_000_000), ("y", 6, 1_000_000)],
        PoolType::ConstantProduct,
        fees(PERCENT, PERCENT, PERCENT, vec![PERCENT / 2]),
    )];
    let r = query_simulation(&pools, coin("x", 100_000), "y".to_string(), "xy".to_string()).unwrap();
    assert_eq!(r.return_amount, 87_728);
    assert_eq!(r.spread_amount, 9_091);
    assert_eq!(r.swap_fee_amount, 909);
    assert_eq!(r.protocol_fee_amount, 909);
    assert_eq!(r.burn_fee_amount, 909);
    assert_eq!(r.extra_fees_amount, 454);
}

#[test]
fn reverse_constant_product_fee_inversion() {
    let pools = vec![pool(
        "xy",
        vec![("x", 6, 1_000_000), ("y", 6, 1_000_000)],
        PoolType::ConstantProduct,
        fees(PERCENT, PERCENT, 0, vec![]),
    )];
    let r = query_reverse_simulation(&pools, coin("y", 1_000), "x".to_string(), "xy".to_string()).unwrap();
    // before fees: 1000 / 0.98 = 1020, of which 20 are fees
    assert_eq!(r.swap_fee_amount + r.protocol_fee_amount + r.burn_fee_amount, 20);
    assert_eq!(r.offer_amount, 1_021);
    assert_eq!(r.spread_amount, 1);
    assert_eq!(before_fees(1_000, &pools[0].pool_fees), Ok(1_020));
}

#[test]
fn forward_then_reverse_recovers_offer() {
    let pools = vec![pool(
        "xy",
        vec![("x", 6, 1_000_000), ("y", 6, 1_000_000)],
        PoolType::ConstantProduct,
        fees(PERCENT, PERCENT, 0, vec![]),
    )];
    let fwd = query_simulation(&pools, coin("x", 1_000), "y".to_string(), "xy".to_string()).unwrap();
    let back = query_reverse_simulation(&pools, coin("y", fwd.return_amount), "x".to_string(), "xy".to_string()).unwrap();
    assert_eq!(back.offer_amount, 1_002);
    assert!(back.offer_amount.abs_diff(1_000) <= 3);
}

#[test]
fn stable_balanced_swap() {
    let pools = vec![pool(
        "st",
        vec![("u", 6, 1_000_000), ("v", 6, 1_000_000)],
        PoolType::StableSwap { amp: 100 },
        no_fees(),
    )];
    let r = query_simulation(&pools, coin("u", 1_000), "v".to_string(), "st".to_string()).unwrap();
    assert_eq!(r.return_amount, 1_000);
    assert_eq!(r.spread_amount, 0);
    let back = query_reverse_simulation(&pools, coin("v", 1_000), "u".to_string(), "st".to_string()).unwrap();
    assert_eq!(back.offer_amount, 999);
    assert_eq!(back.spread_amount, 0);
}

#[test]
fn stable_three_assets() {
    let pools = vec![pool(
        "st3",
        vec![("u", 6, 1_000_000), ("v", 6, 1_000_000), ("w", 6, 1_000_000)],
        PoolType::StableSwap { amp: 100 },
        no_fees(),
    )];
    let r = query_simulation(&pools, coin("u", 1_000), "v".to_string(), "st3".to_string()).unwrap();
    assert_eq!(r.return_amount, 999);
    assert_eq!(r.spread_amount, 1);
}

#[test]
fn stable_mixed_decimals() {
    let pools = vec![pool(
        "mix",
        vec![("six", 6, 1_000_000_000_000), ("eighteen", 18, 1_000_000_000_000_000_000_000_000)],
        PoolType::StableSwap { amp: 100 },
        fees(PERCENT, 0, 0, vec![]),
    )];
    let r = query_simulation(&pools, coin("six", 1_000_000), "eighteen".to_string(), "mix".to_string()).unwrap();
    assert_eq!(r.return_amount, 989_999_995_074_626_890);
    assert_eq!(r.swap_fee_amount, 9_999_999_950_248_756);
    assert_eq!(r.spread_amount, 4_975_124_354);
    let back = query_reverse_simulation(
        &pools,
        coin("eighteen", 1_000_000_000_000_000_000),
        "six".to_string(),
        "mix".to_string(),
    )
    .unwrap();
    assert_eq!(back.offer_amount, 1_010_101);
    assert_eq!(back.spread_amount, 0);
    assert_eq!(back.swap_fee_amount, 10_101_010_101_010_101);
}

#[test]
fn empty_chains_are_refused() {
    let pools = vec![xy_pool()];
    assert_eq!(simulate_swap_operations(&pools, 1_000, vec![]), Err(ContractError::NoSwapOperationsProvided));
    assert_eq!(
        reverse_simulate_swap_operations(&pools, 1_000, vec![]),
        Err(ContractError::NoSwapOperationsProvided)
    );
}

fn chain_pools() -> Vec<PoolInfo> {
    vec![
        pool("ab", vec![("a", 6, 1_000_000), ("b", 6, 2_000_000)], PoolType::ConstantProduct, no_fees()),
        pool("bc", vec![("b", 6, 500_000), ("c", 6, 1_000_000)], PoolType::ConstantProduct, no_fees()),
    ]
}

#[test]
fn two_hop_chain_matches_single_swaps() {
    let pools = chain_pools();
    let first = query_simulation(&pools, coin("a", 1_000), "b".to_string(), "ab".to_string()).unwrap();
    let second = query_simulation(&pools, coin("b", first.return_amount), "c".to_string(), "bc".to_string()).unwrap();
    let chained = simulate_swap_operations(&pools, 1_000, vec![hop("a", "b", "ab"), hop("b", "c", "bc")]).unwrap();
    assert_eq!(first.return_amount, 1_998);
    assert_eq!(second.return_amount, 3_980);
    assert_eq!(chained.amount, second.return_amount);
}

#[test]
fn reverse_chain_runs_backwards() {
    let pools = chain_pools();
    let r = reverse_simulate_swap_operations(&pools, 1_000, vec![hop("a", "b", "ab"), hop("b", "c", "bc")]).unwrap();
    assert_eq!(r.amount, 249);
}

#[test]
fn chain_stops_at_first_failing_hop() {
    let pools = chain_pools();
    let r = simulate_swap_operations(&pools, 1_000, vec![hop("a", "b", "ab"), hop("b", "c", "missing")]);
    assert_eq!(r, Err(ContractError::PoolNotFound));
}

#[test]
fn asset_decimals_found() {
    let pools = vec![pool("mix", vec![("six", 6, 1), ("eighteen", 18, 1)], PoolType::ConstantProduct, no_fees())];
    let r = query_asset_decimals(&pools, "mix".to_string(), "eighteen".to_string()).unwrap();
    assert_eq!(r.decimals, 18);
    assert_eq!(r.denom, "eighteen");
    assert_eq!(r.pool_identifier, "mix");
}

#[test]
fn asset_decimals_of_missing_denom() {
    let pools = vec![xy_pool()];
    let r = query_asset_decimals(&pools, "xy".to_string(), "z".to_string());
    assert!(matches!(r, Err(ContractError::AssetMismatch)));
    let r = query_asset_decimals(&pools, "nope".to_string(), "x".to_string());
    assert!(matches!(r, Err(ContractError::PoolNotFound)));
}

#[test]
fn simulation_with_unknown_denom() {
    let pools = vec![xy_pool()];
    let r = query_simulation(&pools, coin("x", 10), "z".to_string(), "xy".to_string());
    assert_eq!(r, Err(ContractError::AssetMismatch));
    let r = query_reverse_simulation(&pools, coin("z", 10), "x".to_string(), "xy".to_string());
    assert_eq!(r, Err(ContractError::AssetMismatch));
}

#[test]
fn empty_offer_reserve_divides_by_zero() {
    let pools = vec![pool("e", vec![("x", 6, 0), ("y", 6, 1_000)], PoolType::ConstantProduct, no_fees())];
    let r = query_simulation(&pools, coin("x", 10), "y".to_string(), "e".to_string());
    assert_eq!(r, Err(ContractError::DivideByZero));
}

#[test]
fn reverse_beyond_reserve_underflows() {
    let pools = vec![xy_pool()];
    let r = query_reverse_simulation(&pools, coin("y", 2_000_000), "x".to_string(), "xy".to_string());
    assert_eq!(r, Err(ContractError::ArithmeticUnderflow));
}

#[test]
fn fee_above_one_underflows() {
    let f = fees(PERCENT * 60, PERCENT * 60, 0, vec![]);
    assert_eq!(before_fees(100, &f), Err(ContractError::ArithmeticUnderflow));
    let f = fees(PERCENT * 50, PERCENT * 50, 0, vec![]);
    assert_eq!(before_fees(100, &f), Ok(100));
}

#[test]
fn overflowing_offer_is_reported() {
    let pools = vec![pool("big", vec![("x", 6, u128::MAX), ("y", 6, 10)], PoolType::ConstantProduct, no_fees())];
    let r = query_simulation(&pools, coin("x", 10), "y".to_string(), "big".to_string());
    assert_eq!(r, Err(ContractError::ArithmeticOverflow));
}

#[test]
fn precision_round_trip() {
    for (a, d) in [(0u128, 0u8), (1, 6), (123_456_789, 6), (u128::MAX, 18), (340_282_366_920_938_463_463, 0)] {
        let w = to_wide(a, d).unwrap();
        assert_eq!(to_integer(w, d), a);
    }
    assert_eq!(to_wide(5, 6), Some(5_000_000_000_000));
    assert_eq!(to_wide(u128::MAX, 0), None);
    assert_eq!(to_integer(1_999_999_999_999, 6), 1);
}

#[test]
fn fee_amounts() {
    assert_eq!(compute_fee(Fee { share: PERCENT }, 1_000), 10);
    assert_eq!(compute_fee(Fee { share: PERCENT * 3 / 2 }, 999), 14);
    assert_eq!(compute_fee(Fee { share: 0 }, u128::MAX), 0);
}

#[test]
fn page_limits() {
    assert_eq!(page_limit(None), 10);
    assert_eq!(page_limit(Some(7)), 7);
    assert_eq!(page_limit(Some(100)), 100);
    assert_eq!(page_limit(Some(1_000)), 100);
}

#[test]
fn fees_above_output_underflow() {
    let pools = vec![pool(
        "xy",
        vec![("x", 6, 1_000_000), ("y", 6, 1_000_000)],
        PoolType::ConstantProduct,
        fees(0, 0, 0, vec![PERCENT * 60, PERCENT * 60]),
    )];
    let r = query_simulation(&pools, coin("x", 1_000), "y".to_string(), "xy".to_string());
    assert_eq!(r, Err(ContractError::ArithmeticUnderflow));
}

#[test]
fn stable_reverse_fee_inversion() {
    let pools = vec![pool(
        "st",
        vec![("u", 6, 1_000_000), ("v", 6, 1_000_000)],
        PoolType::StableSwap { amp: 100 },
        fees(PERCENT, PERCENT, 0, vec![]),
    )];
    let r = query_reverse_simulation(&pools, coin("v", 1_000), "u".to_string(), "st".to_string()).unwrap();
    // before fees: 1000 / 0.98 = 1020, of which 20 are fees
    assert_eq!(r.swap_fee_amount, 10);
    assert_eq!(r.protocol_fee_amount, 10);
    assert_eq!(r.burn_fee_amount, 0);
    assert_eq!(r.offer_amount, 1_019);
    assert_eq!(r.spread_amount, 0);
}
