//! Proportional redemption of LP tokens for reserves.
use vstd::prelude::*;

use crate::errors::ErrorCode;
use crate::state::key::AccountKey;
use crate::state::math::BASIS_POINTS;
use crate::state::pool::Pool;
use crate::state::user::UserPosition;

verus! {

/// Share of the pool that `lp_amount` of `lp_supply` redeems, in basis points,
/// rounded down.
pub open spec fn withdraw_ratio(lp_amount: int, lp_supply: int) -> int {
    lp_amount * BASIS_POINTS / lp_supply
}

/// Amount of each reserve paid out for `lp_amount` of `lp_supply`:
/// `reserve * ratio / BASIS_POINTS`, rounded down.
pub open spec fn withdrawal_amounts(reserves: Seq<u64>, lp_amount: u64, lp_supply: u64) -> Seq<
    u64,
> {
    Seq::new(
        reserves.len(),
        |i: int|
            (reserves[i] * withdraw_ratio(lp_amount as int, lp_supply as int)
                / BASIS_POINTS as int) as u64,
    )
}

/// Whether some amount falls below the minimum given for it.
pub open spec fn below_minimum(amounts: Seq<u64>, min_amounts: Seq<u64>) -> bool {
    exists|i: int| 0 <= i < amounts.len() && i < min_amounts.len() && #[trigger] amounts[i] < min_amounts[i]
}

/// Why a redemption of `lp_amount` of `lp_supply` against `reserves` is refused,
/// if it is: no LP supply to divide by, more LP than the supply, or an amount
/// below its minimum.
pub open spec fn withdrawal_error(
    reserves: Seq<u64>,
    lp_amount: u64,
    lp_supply: u64,
    min_amounts: Seq<u64>,
) -> Option<ErrorCode> {
    if lp_supply == 0 {
        Some(ErrorCode::MathOverflow)
    } else if lp_amount > lp_supply {
        Some(ErrorCode::InsufficientLiquidity)
    } else if below_minimum(withdrawal_amounts(reserves, lp_amount, lp_supply), min_amounts) {
        Some(ErrorCode::SlippageExceeded)
    } else {
        None
    }
}

/// Amounts of each reserve that redeeming `lp_amount` of `total_lp_supply` pays
/// out, checked against `min_amounts` (entry `i` bounds reserve `i`; missing
/// entries bound nothing).
pub fn calculate_withdrawal_amounts(
    reserves: &[u64],
    lp_amount: u64,
    total_lp_supply: u64,
    min_amounts: &[u64],
) -> (r: Result<Vec<u64>, ErrorCode>)
    ensures
        match r {
            Ok(amounts) => withdrawal_error(reserves@, lp_amount, total_lp_supply, min_amounts@)
                is None && amounts@ == withdrawal_amounts(reserves@, lp_amount, total_lp_supply),
            Err(e) => withdrawal_error(reserves@, lp_amount, total_lp_supply, min_amounts@)
                == Some(e),
        },
{
    if total_lp_supply == 0 {
        return Err(ErrorCode::MathOverflow);
    }
    if lp_amount > total_lp_supply {
        return Err(ErrorCode::InsufficientLiquidity);
    }
    assert((lp_amount as int) * 10000 <= u128::MAX) by (nonlinear_arith)
        requires
            lp_amount <= u64::MAX,
    ;
    let ratio: u128 = (lp_amount as u128 * BASIS_POINTS as u128) / total_lp_supply as u128;
    assert(ratio <= 10000) by (nonlinear_arith)
        requires
            ratio == (lp_amount as int) * 10000 / (total_lp_supply as int),
            lp_amount <= total_lp_supply,
            total_lp_supply > 0,
    ;
    let ghost expected = withdrawal_amounts(reserves@, lp_amount, total_lp_supply);
    let mut amounts: Vec<u64> = Vec::new();
    let mut i: usize = 0;
    while i < reserves.len()
        invariant
            i <= reserves@.len(),
            total_lp_supply > 0,
            lp_amount <= total_lp_supply,
            ratio <= 10000,
            ratio == withdraw_ratio(lp_amount as int, total_lp_supply as int),
            expected == withdrawal_amounts(reserves@, lp_amount, total_lp_supply),
            amounts@.len() == i,
            forall|j: int| 0 <= j < i ==> amounts@[j] == expected[j],
            forall|j: int| 0 <= j < i && j < min_amounts@.len() ==> expected[j] >= min_amounts@[j],
        decreases reserves.len() - i,
    {
        let reserve = reserves[i] as u128;
        assert(reserve * ratio / 10000 <= reserve) by (nonlinear_arith)
            requires
                reserve >= 0,
                ratio <= 10000,
        ;
        let amount = ((reserve * ratio) / BASIS_POINTS as u128) as u64;
        assert(amount == expected[i as int]);
        if i < min_amounts.len() && amount < min_amounts[i] {
            assert(expected[i as int] < min_amounts@[i as int]);
            assert(below_minimum(expected, min_amounts@));
            assert(withdrawal_error(reserves@, lp_amount, total_lp_supply, min_amounts@) == Some(
                ErrorCode::SlippageExceeded,
            ));
            return Err(ErrorCode::SlippageExceeded);
        }
        amounts.push(amount);
        i = i + 1;
    }
    assert(amounts@ =~= expected);
    Ok(amounts)
}

/// Redeeming the whole LP supply pays out every reserve in full.
pub proof fn lemma_full_withdrawal(reserves: Seq<u64>, lp_supply: u64)
    requires
        lp_supply > 0,
    ensures
        withdrawal_amounts(reserves, lp_supply, lp_supply) == reserves,
{
    assert(withdraw_ratio(lp_supply as int, lp_supply as int) == 10000) by (nonlinear_arith)
        requires
            lp_supply > 0,
    ;
    assert forall|i: int| 0 <= i < reserves.len() implies #[trigger] withdrawal_amounts(
        reserves,
        lp_supply,
        lp_supply,
    )[i] == reserves[i] by {
        let r = reserves[i] as int;
        assert(r * 10000 / 10000 == r) by (nonlinear_arith);
    }
    assert(withdrawal_amounts(reserves, lp_supply, lp_supply) =~= reserves);
}

/// Why a withdrawal is refused, if it is: the caller does not own the position,
/// the position belongs to another pool or is inactive, the minimum amounts do
/// not match the pool's assets, the position holds less than `lp_amount`, or the
/// redemption itself is refused.
pub open spec fn withdraw_error(
    pool: Pool,
    position: UserPosition,
    user: AccountKey,
    pool_key: AccountKey,
    lp_amount: u64,
    min_amounts: Seq<u64>,
    lp_supply: u64,
) -> Option<ErrorCode> {
    if position.owner@ != user@ {
        Some(ErrorCode::Unauthorized)
    } else if position.pool@ != pool_key@ {
        Some(ErrorCode::InvalidPoolType)
    } else if !position.is_active {
        Some(ErrorCode::PositionNotActive)
    } else if min_amounts.len() != pool.pool_type.arity() {
        Some(ErrorCode::InvalidInputLength)
    } else if position.lp_amount < lp_amount {
        Some(ErrorCode::InsufficientLiquidity)
    } else {
        withdrawal_error(pool.reserves@, lp_amount, lp_supply, min_amounts)
    }
}

/// Withdraws `lp_amount` LP tokens of `user`'s position from the pool at
/// `pool_key`, whose LP supply is `lp_supply`, at time `now`.
///
/// On success returns the amount of each asset to pay out: the reserves and the
/// position shrink by what is paid and burned, and the position goes inactive
/// once it holds nothing. On failure nothing changes.
pub fn handler(
    pool: &mut Pool,
    position: &mut UserPosition,
    user: &AccountKey,
    pool_key: &AccountKey,
    lp_amount: u64,
    min_amounts: Vec<u64>,
    lp_supply: u64,
    now: i64,
) -> (r: Result<Vec<u64>, ErrorCode>)
    requires
        old(pool).wf(),
    ensures
        match r {
            Ok(amounts) => {
                &&& withdraw_error(
                    *old(pool),
                    *old(position),
                    *user,
                    *pool_key,
                    lp_amount,
                    min_amounts@,
                    lp_supply,
                ) is None
                &&& amounts@ == withdrawal_amounts(old(pool).reserves@, lp_amount, lp_supply)
                &&& final(pool).reserves@.len() == old(pool).reserves@.len()
                &&& forall|i: int|
                    0 <= i < amounts@.len() ==> #[trigger] final(pool).reserves@[i]
                        == old(pool).reserves@[i] - amounts@[i]
                &&& final(pool).same_config(old(pool))
                &&& final(pool).total_fees == old(pool).total_fees
                &&& final(pool).last_update == now
                &&& final(position).lp_amount == old(position).lp_amount - lp_amount
                &&& final(position).is_active == (final(position).lp_amount > 0)
                &&& final(position).last_update == now
                &&& final(position).owner == old(position).owner
                &&& final(position).pool == old(position).pool
                &&& final(position).bump == old(position).bump
                &&& final(position).min_price == old(position).min_price
                &&& final(position).max_price == old(position).max_price
                &&& final(position).created_at == old(position).created_at
            },
            Err(e) => {
                &&& withdraw_error(
                    *old(pool),
                    *old(position),
                    *user,
                    *pool_key,
                    lp_amount,
                    min_amounts@,
                    lp_supply,
                ) == Some(e)
                &&& *final(pool) == *old(pool)
                &&& *final(position) == *old(position)
            },
        },
        final(pool).wf(),
{
    if position.owner != *user {
        return Err(ErrorCode::Unauthorized);
    }
    if position.pool != *pool_key {
        return Err(ErrorCode::InvalidPoolType);
    }
    if !position.is_active {
        return Err(ErrorCode::PositionNotActive);
    }
    if min_amounts.len() != pool.pool_type.token_count() {
        return Err(ErrorCode::InvalidInputLength);
    }
    if position.lp_amount < lp_amount {
        return Err(ErrorCode::InsufficientLiquidity);
    }
    let amounts = match calculate_withdrawal_amounts(
        pool.reserves.as_slice(),
        lp_amount,
        lp_supply,
        min_amounts.as_slice(),
    ) {
        Ok(a) => a,
        Err(e) => return Err(e),
    };
    let ghost old_reserves = pool.reserves@;
    let mut reserves: Vec<u64> = Vec::new();
    let mut i: usize = 0;
    while i < amounts.len()
        invariant
            i <= amounts@.len(),
            amounts@ == withdrawal_amounts(old_reserves, lp_amount, lp_supply),
            old_reserves == pool.reserves@,
            lp_amount <= lp_supply,
            lp_supply > 0,
            reserves@.len() == i,
            forall|j: int| 0 <= j < i ==> #[trigger] reserves@[j] == old_reserves[j] - amounts@[j],
        decreases amounts.len() - i,
    {
        let ghost ratio = withdraw_ratio(lp_amount as int, lp_supply as int);
        assert(ratio <= 10000 && old_reserves[i as int] * ratio / 10000 <= old_reserves[i as int])
            by (nonlinear_arith)
            requires
                ratio == (lp_amount as int) * 10000 / (lp_supply as int),
                lp_amount <= lp_supply,
                lp_supply > 0,
                old_reserves[i as int] >= 0,
        ;
        reserves.push(pool.reserves[i].saturating_sub(amounts[i]));
        i = i + 1;
    }
    pool.reserves = reserves;
    pool.last_update = now;
    position.lp_amount = position.lp_amount - lp_amount;
    position.last_update = now;
    if position.lp_amount == 0 {
        position.is_active = false;
    }
    Ok(amounts)
}

} // verus!
