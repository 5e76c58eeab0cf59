//! Pricing queries against a snapshot of the pool registry: asset decimals,
//! forward and reverse simulation, and multi-hop chains.
use vstd::prelude::*;
use crate::arith::WIDE_DECIMALS;
use crate::swap::{
    asset_indexes_of, compute_offer_amount, compute_stable_offer_amount, compute_swap, compute_swap_of,
    constant_product_offer_of, denom_index, find_denom, get_asset_indexes_in_pool, stable_offer_of,
};
use crate::types::{
    AssetDecimalsResponse, Coin, ContractError, PoolInfo, PoolType, ReverseSimulationResponse,
    SimulateSwapOperationsResponse, SimulationResponse, SwapOperation,
};

verus! {

/// Page size of a pool listing when none is asked for.
pub const DEFAULT_LIMIT: u32 = 10;

/// Largest page size of a pool listing.
pub const MAX_LIMIT: u32 = 100;

/// Every pool of the snapshot is well formed.
pub open spec fn registry_wf(pools: Seq<PoolInfo>) -> bool {
    forall|k: int| 0 <= k < pools.len() ==> (#[trigger] pools[k]).wf()
}

/// Position of the first pool named `id`.
pub open spec fn pool_index(pools: Seq<PoolInfo>, id: Seq<char>) -> Option<int> {
    if exists|k: int| 0 <= k < pools.len() && #[trigger] pools[k].pool_identifier@ == id {
        Some(choose|k: int| 0 <= k < pools.len() && #[trigger] pools[k].pool_identifier@ == id
            && forall|j: int| 0 <= j < k ==> pools[j].pool_identifier@ != id)
    } else {
        None
    }
}

/// Looks a pool up by identifier; `PoolNotFound` when none has it.
pub fn get_pool_by_identifier(pools: &Vec<PoolInfo>, pool_identifier: &String) -> (r: Result<usize, ContractError>)
    ensures
        r matches Ok(k) ==> pool_index(pools@, pool_identifier@) == Some(k as int) && k < pools@.len(),
        r matches Err(e) ==> pool_index(pools@, pool_identifier@) is None && e == ContractError::PoolNotFound,
{
    let mut k: usize = 0;
    while k < pools.len()
        invariant
            k <= pools@.len(),
            forall|j: int| 0 <= j < k ==> pools@[j].pool_identifier@ != pool_identifier@,
        decreases pools@.len() - k,
    {
        if pools[k].pool_identifier.eq(pool_identifier) {
            proof {
                let id = pool_identifier@;
                let c = choose|c: int| 0 <= c < pools@.len() && #[trigger] pools@[c].pool_identifier@ == id
                    && forall|j: int| 0 <= j < c ==> pools@[j].pool_identifier@ != id;
                assert(0 <= k < pools@.len() && pools@[k as int].pool_identifier@ == id
                    && forall|j: int| 0 <= j < k ==> pools@[j].pool_identifier@ != id);
                if c < k {
                    assert(pools@[c].pool_identifier@ != id);
                }
                if c > k {
                    assert(pools@[k as int].pool_identifier@ != id);
                }
            }
            return Ok(k);
        }
        k = k + 1;
    }
    Err(ContractError::PoolNotFound)
}

/// The decimal count of `denom` in pool `id`.
pub open spec fn asset_decimals_of(pools: Seq<PoolInfo>, id: Seq<char>, denom: Seq<char>) -> Result<u8, ContractError> {
    match pool_index(pools, id) {
        None => Err(ContractError::PoolNotFound),
        Some(k) => match denom_index(pools[k].asset_denoms@, denom) {
            None => Err(ContractError::AssetMismatch),
            Some(i) => Ok(pools[k].asset_decimals@[i]),
        },
    }
}

/// The decimal count of one asset of one pool. Fails with `AssetMismatch`
/// exactly when the pool exists and holds no such asset.
pub fn query_asset_decimals(pools: &Vec<PoolInfo>, pool_identifier: String, denom: String) -> (r: Result<AssetDecimalsResponse, ContractError>)
    requires
        registry_wf(pools@),
    ensures
        r matches Ok(resp) ==> asset_decimals_of(pools@, pool_identifier@, denom@) == Ok::<u8, ContractError>(resp.decimals)
            && resp.pool_identifier@ == pool_identifier@ && resp.denom@ == denom@,
        r matches Err(e) ==> asset_decimals_of(pools@, pool_identifier@, denom@) == Err::<u8, ContractError>(e),
        r == Err::<AssetDecimalsResponse, ContractError>(ContractError::AssetMismatch) <==> (pool_index(pools@, pool_identifier@) matches Some(k)
            && forall|i: int| 0 <= i < pools@[k].asset_denoms@.len() ==> pools@[k].asset_denoms@[i]@ != denom@),
{
    let k = get_pool_by_identifier(pools, &pool_identifier)?;
    let pool = &pools[k];
    assert(pool.wf());
    match find_denom(&pool.asset_denoms, &denom) {
        None => {
            proof {
                assert forall|i: int| 0 <= i < pool.asset_denoms@.len() implies pool.asset_denoms@[i]@ != denom@ by {
                    if pool.asset_denoms@[i]@ == denom@ {
                        assert(denom_index(pool.asset_denoms@, denom@) is Some);
                    }
                }
            }
            Err(ContractError::AssetMismatch)
        },
        Some(i) => Ok(AssetDecimalsResponse { pool_identifier, denom, decimals: pool.asset_decimals[i] }),
    }
}

/// Forward simulation of an offer of `amount` of `offer` for `ask` in pool `id`.
#[verifier::opaque]
pub open spec fn simulation_of(pools: Seq<PoolInfo>, offer: Seq<char>, amount: int, ask: Seq<char>, id: Seq<char>) -> Result<SimulationResponse, ContractError> {
    match pool_index(pools, id) {
        None => Err(ContractError::PoolNotFound),
        Some(k) => match asset_indexes_of(&pools[k], offer, ask) {
            Err(e) => Err(e),
            Ok(ix) => compute_swap_of(
                pools[k].assets@.len() as int,
                pools[k].assets@[ix.0].amount as int,
                pools[k].assets@[ix.1].amount as int,
                amount,
                &pools[k].pool_fees,
                pools[k].pool_type,
                pools[k].asset_decimals@[ix.0] as nat,
                pools[k].asset_decimals@[ix.1] as nat,
            ),
        },
    }
}

/// Simulates a swap of `offer_asset` for `ask_asset_denom` in one pool.
pub fn query_simulation(pools: &Vec<PoolInfo>, offer_asset: Coin, ask_asset_denom: String, pool_identifier: String) -> (r: Result<SimulationResponse, ContractError>)
    requires
        registry_wf(pools@),
    ensures
        r == simulation_of(pools@, offer_asset.denom@, offer_asset.amount as int, ask_asset_denom@, pool_identifier@),
{
    reveal(simulation_of);
    let k = get_pool_by_identifier(pools, &pool_identifier)?;
    let pool = &pools[k];
    assert(pool.wf());
    let (o, a) = get_asset_indexes_in_pool(pool, &offer_asset.denom, &ask_asset_denom)?;
    assert(pool.asset_decimals@[o as int] <= WIDE_DECIMALS && pool.asset_decimals@[a as int] <= WIDE_DECIMALS);
    compute_swap(
        pool.assets.len() as u128,
        pool.assets[o].amount,
        pool.assets[a].amount,
        offer_asset.amount,
        &pool.pool_fees,
        pool.pool_type,
        pool.asset_decimals[o],
        pool.asset_decimals[a],
    )
}

/// Reverse simulation: the offer of `offer` needed to receive `amount` of
/// `ask` from pool `id`.
pub open spec fn reverse_simulation_of(pools: Seq<PoolInfo>, ask: Seq<char>, amount: int, offer: Seq<char>, id: Seq<char>) -> Result<ReverseSimulationResponse, ContractError> {
    match pool_index(pools, id) {
        None => Err(ContractError::PoolNotFound),
        Some(k) => match asset_indexes_of(&pools[k], offer, ask) {
            Err(e) => Err(e),
            Ok(ix) => match pools[k].pool_type {
                PoolType::ConstantProduct => constant_product_offer_of(
                    pools[k].assets@[ix.0].amount as int,
                    pools[k].assets@[ix.1].amount as int,
                    amount,
                    &pools[k].pool_fees,
                ),
                PoolType::StableSwap { amp } => stable_offer_of(
                    pools[k].assets@.len() as int,
                    amp as int,
                    pools[k].assets@[ix.0].amount as int,
                    pools[k].assets@[ix.1].amount as int,
                    amount,
                    pools[k].asset_decimals@[ix.0] as nat,
                    pools[k].asset_decimals@[ix.1] as nat,
                    &pools[k].pool_fees,
                ),
            },
        },
    }
}

/// Prices the offer of `offer_asset_denom` needed to receive `ask_asset`
/// from one pool.
pub fn query_reverse_simulation(pools: &Vec<PoolInfo>, ask_asset: Coin, offer_asset_denom: String, pool_identifier: String) -> (r: Result<ReverseSimulationResponse, ContractError>)
    requires
        registry_wf(pools@),
    ensures
        r == reverse_simulation_of(pools@, ask_asset.denom@, ask_asset.amount as int, offer_asset_denom@, pool_identifier@),
{
    reveal(reverse_simulation_of);
    let k = get_pool_by_identifier(pools, &pool_identifier)?;
    let pool = &pools[k];
    assert(pool.wf());
    let (o, a) = get_asset_indexes_in_pool(pool, &offer_asset_denom, &ask_asset.denom)?;
    assert(pool.asset_decimals@[o as int] <= WIDE_DECIMALS && pool.asset_decimals@[a as int] <= WIDE_DECIMALS);
    match pool.pool_type {
        PoolType::ConstantProduct => compute_offer_amount(
            pool.assets[o].amount,
            pool.assets[a].amount,
            ask_asset.amount,
            &pool.pool_fees,
        ),
        PoolType::StableSwap { amp } => compute_stable_offer_amount(
            pool.assets.len() as u128,
            amp,
            pool.assets[o].amount,
            pool.assets[a].amount,
            ask_asset.amount,
            pool.asset_decimals[o],
            pool.asset_decimals[a],
            &pool.pool_fees,
        ),
    }
}

/// One forward hop of a chain.
pub open spec fn hop_of(pools: Seq<PoolInfo>, amount: int, op: SwapOperation) -> Result<SimulationResponse, ContractError> {
    match op {
        SwapOperation::MantraSwap { token_in_denom, token_out_denom, pool_identifier } =>
            simulation_of(pools, token_in_denom@, amount, token_out_denom@, pool_identifier@),
    }
}

/// One hop of a reverse chain: a forward swap from the hop's output denom to
/// its input denom.
pub open spec fn back_hop_of(pools: Seq<PoolInfo>, amount: int, op: SwapOperation) -> Result<SimulationResponse, ContractError> {
    match op {
        SwapOperation::MantraSwap { token_in_denom, token_out_denom, pool_identifier } =>
            simulation_of(pools, token_out_denom@, amount, token_in_denom@, pool_identifier@),
    }
}

/// `amount` threaded through `ops` from first to last.
pub open spec fn chain_forward(pools: Seq<PoolInfo>, amount: int, ops: Seq<SwapOperation>) -> Result<int, ContractError>
    decreases ops.len(),
{
    if ops.len() == 0 {
        Ok(amount)
    } else {
        match hop_of(pools, amount, ops[0]) {
            Err(e) => Err(e),
            Ok(res) => chain_forward(pools, res.return_amount as int, ops.drop_first()),
        }
    }
}

/// `amount` threaded through `ops` from last to first.
pub open spec fn chain_backward(pools: Seq<PoolInfo>, amount: int, ops: Seq<SwapOperation>) -> Result<int, ContractError>
    decreases ops.len(),
{
    if ops.len() == 0 {
        Ok(amount)
    } else {
        match back_hop_of(pools, amount, ops.last()) {
            Err(e) => Err(e),
            Ok(res) => chain_backward(pools, res.return_amount as int, ops.drop_last()),
        }
    }
}

/// A forward chain: refused when empty.
pub open spec fn simulate_chain_of(pools: Seq<PoolInfo>, amount: int, ops: Seq<SwapOperation>) -> Result<int, ContractError> {
    if ops.len() == 0 {
        Err(ContractError::NoSwapOperationsProvided)
    } else {
        chain_forward(pools, amount, ops)
    }
}

/// A reverse chain: refused when empty.
pub open spec fn reverse_simulate_chain_of(pools: Seq<PoolInfo>, amount: int, ops: Seq<SwapOperation>) -> Result<int, ContractError> {
    if ops.len() == 0 {
        Err(ContractError::NoSwapOperationsProvided)
    } else {
        chain_backward(pools, amount, ops)
    }
}

/// Threads `offer_amount` through the swap operations in order, each hop's
/// return amount being the next hop's offer.
pub fn simulate_swap_operations(pools: &Vec<PoolInfo>, offer_amount: u128, operations: Vec<SwapOperation>) -> (r: Result<SimulateSwapOperationsResponse, ContractError>)
    requires
        registry_wf(pools@),
    ensures
        operations@.len() == 0 ==> r == Err::<SimulateSwapOperationsResponse, ContractError>(ContractError::NoSwapOperationsProvided),
        r matches Ok(resp) ==> simulate_chain_of(pools@, offer_amount as int, operations@) == Ok::<int, ContractError>(resp.amount as int),
        r matches Err(e) ==> simulate_chain_of(pools@, offer_amount as int, operations@) == Err::<int, ContractError>(e),
{
    if operations.len() == 0 {
        return Err(ContractError::NoSwapOperationsProvided);
    }
    let mut amount = offer_amount;
    let mut i: usize = 0;
    proof {
        assert(operations@.subrange(0, operations@.len() as int) =~= operations@);
    }
    while i < operations.len()
        invariant
            registry_wf(pools@),
            i <= operations@.len(),
            operations@.len() > 0,
            simulate_chain_of(pools@, offer_amount as int, operations@)
                == chain_forward(pools@, amount as int, operations@.subrange(i as int, operations@.len() as int)),
        decreases operations@.len() - i,
    {
        let ghost rest = operations@.subrange(i as int, operations@.len() as int);
        proof {
            assert(rest[0] == operations@[i as int]);
            assert(rest.drop_first() =~= operations@.subrange(i + 1, operations@.len() as int));
        }
        match &operations[i] {
            SwapOperation::MantraSwap { token_in_denom, token_out_denom, pool_identifier } => {
                let res = query_simulation(
                    pools,
                    Coin { denom: token_in_denom.clone(), amount },
                    token_out_denom.clone(),
                    pool_identifier.clone(),
                )?;
                amount = res.return_amount;
            },
        }
        i = i + 1;
    }
    proof {
        assert(operations@.subrange(i as int, operations@.len() as int).len() == 0);
    }
    Ok(SimulateSwapOperationsResponse { amount })
}

/// Threads `ask_amount` through the swap operations from last to first,
/// swapping each hop's output denom for its input denom.
pub fn reverse_simulate_swap_operations(pools: &Vec<PoolInfo>, ask_amount: u128, operations: Vec<SwapOperation>) -> (r: Result<SimulateSwapOperationsResponse, ContractError>)
    requires
        registry_wf(pools@),
    ensures
        operations@.len() == 0 ==> r == Err::<SimulateSwapOperationsResponse, ContractError>(ContractError::NoSwapOperationsProvided),
        r matches Ok(resp) ==> reverse_simulate_chain_of(pools@, ask_amount as int, operations@) == Ok::<int, ContractError>(resp.amount as int),
        r matches Err(e) ==> reverse_simulate_chain_of(pools@, ask_amount as int, operations@) == Err::<int, ContractError>(e),
{
    if operations.len() == 0 {
        return Err(ContractError::NoSwapOperationsProvided);
    }
    let mut amount = ask_amount;
    let mut i: usize = operations.len();
    proof {
        assert(operations@.subrange(0, i as int) =~= operations@);
    }
    while i > 0
        invariant
            registry_wf(pools@),
            i <= operations@.len(),
            operations@.len() > 0,
            reverse_simulate_chain_of(pools@, ask_amount as int, operations@)
                == chain_backward(pools@, amount as int, operations@.subrange(0, i as int)),
        decreases i,
    {
        let ghost rest = operations@.subrange(0, i as int);
        proof {
            assert(rest.last() == operations@[i - 1]);
            assert(rest.drop_last() =~= operations@.subrange(0, i - 1));
        }
        match &operations[i - 1] {
            SwapOperation::MantraSwap { token_in_denom, token_out_denom, pool_identifier } => {
                let res = query_simulation(
                    pools,
                    Coin { denom: token_out_denom.clone(), amount },
                    token_in_denom.clone(),
                    pool_identifier.clone(),
                )?;
                amount = res.return_amount;
            },
        }
        i = i - 1;
    }
    Ok(SimulateSwapOperationsResponse { amount })
}

/// The page size of a pool listing: the requested limit, or the default when
/// none is given, never above the maximum.
pub fn page_limit(limit: Option<u32>) -> (r: usize)
    ensures
        r as int == (match limit {
            Some(l) => if l <= MAX_LIMIT { l as int } else { MAX_LIMIT as int },
            None => DEFAULT_LIMIT as int,
        }),
{
    let l = match limit {
        Some(l) => l,
        None => DEFAULT_LIMIT,
    };
    if l <= MAX_LIMIT { l as usize } else { MAX_LIMIT as usize }
}

/// A chain with no operations is refused, forward and in reverse.
pub proof fn lemma_empty_chain_refused(pools: Seq<PoolInfo>, amount: int)
    ensures
        simulate_chain_of(pools, amount, Seq::empty()) == Err::<int, ContractError>(ContractError::NoSwapOperationsProvided),
        reverse_simulate_chain_of(pools, amount, Seq::empty()) == Err::<int, ContractError>(ContractError::NoSwapOperationsProvided),
{
}

/// A two-hop chain gives what the two single swaps give when the first one's
/// return amount is offered to the second.
pub proof fn lemma_two_hop_chain(pools: Seq<PoolInfo>, amount: int, first: SwapOperation, second: SwapOperation)
    ensures
        simulate_chain_of(pools, amount, seq![first, second]) == (match hop_of(pools, amount, first) {
            Err(e) => Err(e),
            Ok(r1) => match hop_of(pools, r1.return_amount as int, second) {
                Err(e) => Err(e),
                Ok(r2) => Ok::<int, ContractError>(r2.return_amount as int),
            },
        }),
{
    let ops = seq![first, second];
    assert(ops.drop_first() =~= seq![second]);
    assert(ops.drop_first().drop_first() =~= Seq::<SwapOperation>::empty());
    reveal_with_fuel(chain_forward, 3);
}

} // verus!
