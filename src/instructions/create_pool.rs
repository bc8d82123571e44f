//! Creating seed and growth pools.
use vstd::prelude::*;

use crate::errors::ErrorCode;
use crate::state::key::AccountKey;
use crate::state::math::{sum_of, sum_u128, BASIS_POINTS};
use crate::state::pool::{Pool, PoolType, GROWTH_TARGET_WEIGHT};

verus! {

/// Why a seed pool cannot be created, if it cannot: not three target weights and
/// three amounts, weights not summing to `BASIS_POINTS`, a zero amplification,
/// or initial LP (the sum of the amounts) beyond 64 bits.
pub open spec fn seed_pool_error(
    amplification: u64,
    target_weights: Seq<u64>,
    initial_amounts: Seq<u64>,
) -> Option<ErrorCode> {
    if target_weights.len() != 3 || initial_amounts.len() != 3 {
        Some(ErrorCode::InvalidInputLength)
    } else if sum_of(target_weights) != BASIS_POINTS {
        Some(ErrorCode::InvalidWeights)
    } else if amplification == 0 {
        Some(ErrorCode::InvalidAmplification)
    } else if sum_of(initial_amounts) > u64::MAX {
        Some(ErrorCode::MathOverflow)
    } else {
        None
    }
}

/// Creates a seed pool over three assets, funded with `initial_amounts`, at time
/// `now`.
///
/// Returns the pool and the LP tokens to mint for its creator: the sum of the
/// initial amounts.
pub fn create_seed_pool(
    amm_config: &AccountKey,
    token_mints: [AccountKey; 3],
    token_accounts: [AccountKey; 3],
    lp_mint: &AccountKey,
    bump: u8,
    amplification: u64,
    target_weights: Vec<u64>,
    initial_amounts: Vec<u64>,
    now: i64,
) -> (r: Result<(Pool, u64), ErrorCode>)
    ensures
        match r {
            Ok((pool, lp)) => {
                &&& seed_pool_error(amplification, target_weights@, initial_amounts@) is None
                &&& pool.wf()
                &&& pool.pool_type == PoolType::Seed
                &&& pool.bump == bump
                &&& pool.amm_config == *amm_config
                &&& pool.token_mints@ == token_mints@
                &&& pool.token_accounts@ == token_accounts@
                &&& pool.reserves@ == initial_amounts@
                &&& pool.lp_mint == *lp_mint
                &&& pool.target_weights@ == target_weights@
                &&& pool.amplification == amplification
                &&& pool.total_fees == 0
                &&& pool.last_update == now
                &&& pool.seed_pool is None
                &&& lp == sum_of(initial_amounts@)
            },
            Err(e) => seed_pool_error(amplification, target_weights@, initial_amounts@) == Some(e),
        },
{
    if target_weights.len() != 3 || initial_amounts.len() != 3 {
        return Err(ErrorCode::InvalidInputLength);
    }
    if sum_u128(target_weights.as_slice()) != BASIS_POINTS as u128 {
        return Err(ErrorCode::InvalidWeights);
    }
    if amplification == 0 {
        return Err(ErrorCode::InvalidAmplification);
    }
    let initial_lp_amount = sum_u128(initial_amounts.as_slice());
    if initial_lp_amount > u64::MAX as u128 {
        return Err(ErrorCode::MathOverflow);
    }
    let mints = vec![token_mints[0], token_mints[1], token_mints[2]];
    let accounts = vec![token_accounts[0], token_accounts[1], token_accounts[2]];
    assert(mints@ =~= token_mints@);
    assert(accounts@ =~= token_accounts@);
    let pool = Pool {
        bump,
        pool_type: PoolType::Seed,
        amm_config: *amm_config,
        token_mints: mints,
        token_accounts: accounts,
        reserves: initial_amounts,
        lp_mint: *lp_mint,
        target_weights,
        amplification,
        total_fees: 0,
        last_update: now,
        seed_pool: None,
    };
    Ok((pool, initial_lp_amount as u64))
}

/// Initial LP tokens of a growth pool: twice the smaller initial amount.
pub open spec fn growth_initial_lp(amount0: u64, amount1: u64) -> int {
    2 * (if amount0 <= amount1 {
        amount0
    } else {
        amount1
    })
}

/// Why a growth pool cannot be created, if it cannot: the referenced pool is not
/// a seed pool, a zero amplification, or initial LP beyond 64 bits.
pub open spec fn growth_pool_error(
    seed_pool_type: PoolType,
    amplification: u64,
    amount0: u64,
    amount1: u64,
) -> Option<ErrorCode> {
    if seed_pool_type != PoolType::Seed {
        Some(ErrorCode::InvalidPoolType)
    } else if amplification == 0 {
        Some(ErrorCode::InvalidAmplification)
    } else if growth_initial_lp(amount0, amount1) > u64::MAX {
        Some(ErrorCode::MathOverflow)
    } else {
        None
    }
}

/// Creates a 50/50 growth pool pegged against the seed pool `seed_pool` (at
/// `seed_pool_key`), funded with the two initial amounts, at time `now`.
///
/// Returns the pool and the LP tokens to mint for its creator: twice the smaller
/// initial amount.
pub fn create_growth_pool(
    seed_pool: &Pool,
    seed_pool_key: &AccountKey,
    amm_config: &AccountKey,
    token_mints: [AccountKey; 2],
    token_accounts: [AccountKey; 2],
    lp_mint: &AccountKey,
    bump: u8,
    amplification: u64,
    initial_usdc_star_amount: u64,
    initial_partner_amount: u64,
    now: i64,
) -> (r: Result<(Pool, u64), ErrorCode>)
    ensures
        match r {
            Ok((pool, lp)) => {
                &&& growth_pool_error(
                    seed_pool.pool_type,
                    amplification,
                    initial_usdc_star_amount,
                    initial_partner_amount,
                ) is None
                &&& pool.wf()
                &&& pool.pool_type == PoolType::Growth
                &&& pool.bump == bump
                &&& pool.amm_config == *amm_config
                &&& pool.token_mints@ == token_mints@
                &&& pool.token_accounts@ == token_accounts@
                &&& pool.reserves@ == seq![initial_usdc_star_amount, initial_partner_amount]
                &&& pool.lp_mint == *lp_mint
                &&& pool.target_weights@ == seq![GROWTH_TARGET_WEIGHT, GROWTH_TARGET_WEIGHT]
                &&& pool.amplification == amplification
                &&& pool.total_fees == 0
                &&& pool.last_update == now
                &&& pool.seed_pool == Some(*seed_pool_key)
                &&& lp == growth_initial_lp(initial_usdc_star_amount, initial_partner_amount)
            },
            Err(e) => growth_pool_error(
                seed_pool.pool_type,
                amplification,
                initial_usdc_star_amount,
                initial_partner_amount,
            ) == Some(e),
        },
{
    if seed_pool.pool_type != PoolType::Seed {
        return Err(ErrorCode::InvalidPoolType);
    }
    if amplification == 0 {
        return Err(ErrorCode::InvalidAmplification);
    }
    let smaller = if initial_usdc_star_amount <= initial_partner_amount {
        initial_usdc_star_amount
    } else {
        initial_partner_amount
    };
    if smaller > u64::MAX / 2 {
        return Err(ErrorCode::MathOverflow);
    }
    let mints = vec![token_mints[0], token_mints[1]];
    let accounts = vec![token_accounts[0], token_accounts[1]];
    assert(mints@ =~= token_mints@);
    assert(accounts@ =~= token_accounts@);
    let target_weights = vec![GROWTH_TARGET_WEIGHT, GROWTH_TARGET_WEIGHT];
    assert(sum_of(target_weights@) == BASIS_POINTS) by {
        reveal_with_fuel(crate::state::math::prefix_sum, 3);
    }
    let pool = Pool {
        bump,
        pool_type: PoolType::Growth,
        amm_config: *amm_config,
        token_mints: mints,
        token_accounts: accounts,
        reserves: vec![initial_usdc_star_amount, initial_partner_amount],
        lp_mint: *lp_mint,
        target_weights,
        amplification,
        total_fees: 0,
        last_update: now,
        seed_pool: Some(*seed_pool_key),
    };
    Ok((pool, smaller * 2))
}

} // verus!
