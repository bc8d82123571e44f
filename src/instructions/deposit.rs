//! Deposits: LP issuance from invariant growth, and the position update.
use vstd::prelude::*;

use crate::errors::ErrorCode;
use crate::state::key::AccountKey;
use crate::state::math::{
    calculate_invariant, calculate_position_bounds, invariant_of, position_bounds, sum_of,
    sum_u128, PRICE_DENOMINATOR, PRICE_INCREMENT,
};
use crate::state::pool::Pool;
use crate::state::user::UserPosition;

verus! {

/// LP tokens minted for a deposit that takes the reserves from `old_reserves` to
/// `new_reserves`, with `lp_supply` already issued.
///
/// Into an empty pool: the sum of the deposited amounts. Otherwise
/// `lp_supply * (D_new - D_old) / D_old`, rounded down; a failure when either
/// invariant cannot be computed, `D_old` is zero, D fell, or the result leaves
/// 64 bits.
pub open spec fn lp_to_mint(
    old_reserves: Seq<u64>,
    new_reserves: Seq<u64>,
    deposit_amounts: Seq<u64>,
    lp_supply: u64,
    amplification: u64,
) -> Result<u64, ErrorCode> {
    if sum_of(old_reserves) == 0 {
        if sum_of(deposit_amounts) <= u64::MAX {
            Ok(sum_of(deposit_amounts) as u64)
        } else {
            Err(ErrorCode::MathOverflow)
        }
    } else {
        match (invariant_of(old_reserves, amplification), invariant_of(new_reserves, amplification)) {
            (Some(d_old), Some(d_new)) => if d_old > 0 && d_new >= d_old {
                let lp = lp_supply * (d_new - d_old) / d_old as int;
                if lp <= u64::MAX {
                    Ok(lp as u64)
                } else {
                    Err(ErrorCode::MathOverflow)
                }
            } else {
                Err(ErrorCode::MathOverflow)
            },
            _ => Err(ErrorCode::MathOverflow),
        }
    }
}

/// LP tokens to mint for a deposit of `deposit_amounts` that took the pool's
/// reserves from `old_reserves` to `new_reserves`.
pub fn calculate_lp_amount(
    old_reserves: &[u64],
    new_reserves: &[u64],
    deposit_amounts: &[u64],
    lp_supply: u64,
    amplification: u64,
) -> (r: Result<u64, ErrorCode>)
    ensures
        r == lp_to_mint(old_reserves@, new_reserves@, deposit_amounts@, lp_supply, amplification),
{
    let total_old = sum_u128(old_reserves);
    if total_old == 0 {
        let total_deposit = sum_u128(deposit_amounts);
        if total_deposit > u64::MAX as u128 {
            return Err(ErrorCode::MathOverflow);
        }
        return Ok(total_deposit as u64);
    }
    let d_old = match calculate_invariant(old_reserves, amplification) {
        Some(d) => d,
        None => return Err(ErrorCode::MathOverflow),
    };
    let d_new = match calculate_invariant(new_reserves, amplification) {
        Some(d) => d,
        None => return Err(ErrorCode::MathOverflow),
    };
    if d_old == 0 || d_new < d_old {
        return Err(ErrorCode::MathOverflow);
    }
    assert((lp_supply as int) * ((d_new - d_old) as int) <= u128::MAX) by (nonlinear_arith)
        requires
            lp_supply <= u64::MAX,
            0 <= d_new - d_old <= u64::MAX,
    ;
    let lp = (lp_supply as u128 * (d_new - d_old) as u128) / d_old as u128;
    if lp > u64::MAX as u128 {
        return Err(ErrorCode::MathOverflow);
    }
    Ok(lp as u64)
}

/// A first deposit into a pool holding nothing mints exactly the sum of the
/// deposited amounts, whenever that sum fits 64 bits.
pub proof fn lemma_bootstrap_deposit(
    old_reserves: Seq<u64>,
    new_reserves: Seq<u64>,
    deposit_amounts: Seq<u64>,
    lp_supply: u64,
    amplification: u64,
)
    requires
        forall|i: int| 0 <= i < old_reserves.len() ==> #[trigger] old_reserves[i] == 0,
        sum_of(deposit_amounts) <= u64::MAX,
    ensures
        lp_to_mint(old_reserves, new_reserves, deposit_amounts, lp_supply, amplification) == Ok::<
            u64,
            ErrorCode,
        >(sum_of(deposit_amounts) as u64),
{
    lemma_zero_sum(old_reserves, old_reserves.len() as int);
}

proof fn lemma_zero_sum(s: Seq<u64>, k: int)
    requires
        0 <= k <= s.len(),
        forall|i: int| 0 <= i < s.len() ==> #[trigger] s[i] == 0,
    ensures
        crate::state::math::prefix_sum(s, k) == 0,
    decreases k,
{
    if k > 0 {
        lemma_zero_sum(s, k - 1);
        assert(s[k - 1] == 0);
    }
}

/// Whether `given` starts with the first `n` keys of `expected`.
pub open spec fn keys_match(expected: Seq<AccountKey>, given: Seq<AccountKey>, n: nat) -> bool {
    &&& given.len() >= n
    &&& forall|i: int| 0 <= i < n ==> #[trigger] given[i]@ == expected[i]@
}

/// Whether adding `amounts` to `reserves` overflows some reserve.
pub open spec fn deposit_overflows(reserves: Seq<u64>, amounts: Seq<u64>) -> bool {
    exists|i: int| 0 <= i < reserves.len() && #[trigger] reserves[i] + amounts[i] > u64::MAX
}

/// `reserves` after `amounts` are added, entry by entry.
pub open spec fn deposited(reserves: Seq<u64>, amounts: Seq<u64>) -> Seq<u64> {
    Seq::new(reserves.len(), |i: int| (reserves[i] + amounts[i]) as u64)
}

/// Why a deposit is refused, if it is: the position belongs to someone else or to
/// another pool, the amounts or the given mints do not match the pool's assets,
/// a reserve would overflow, LP issuance fails or falls short of `min_lp_amount`,
/// the price range or the position's LP balance would overflow.
pub open spec fn deposit_error(
    pool: Pool,
    position: UserPosition,
    user: AccountKey,
    pool_key: AccountKey,
    token_mints: Seq<AccountKey>,
    amounts: Seq<u64>,
    min_lp_amount: u64,
    concentration: u64,
    lp_supply: u64,
) -> Option<ErrorCode> {
    let n = pool.pool_type.arity();
    if !position.owner.is_unset() && position.owner@ != user@ {
        Some(ErrorCode::Unauthorized)
    } else if !position.owner.is_unset() && position.pool@ != pool_key@ {
        Some(ErrorCode::InvalidPoolType)
    } else if amounts.len() != n {
        Some(ErrorCode::InvalidInputLength)
    } else if !keys_match(pool.token_mints@, token_mints, n) {
        Some(ErrorCode::InvalidTokenMint)
    } else if deposit_overflows(pool.reserves@, amounts) {
        Some(ErrorCode::MathOverflow)
    } else {
        match lp_to_mint(
            pool.reserves@,
            deposited(pool.reserves@, amounts),
            amounts,
            lp_supply,
            pool.amplification,
        ) {
            Err(e) => Some(e),
            Ok(lp) => if lp < min_lp_amount {
                Some(ErrorCode::SlippageExceeded)
            } else if PRICE_DENOMINATOR + concentration * PRICE_INCREMENT > u64::MAX {
                Some(ErrorCode::MathOverflow)
            } else if position.lp_amount + lp > u64::MAX {
                Some(ErrorCode::MathOverflow)
            } else {
                None
            },
        }
    }
}

/// Deposits `amounts` (one per asset, in pool order) from `user` into the pool at
/// `pool_key`, whose LP supply is `lp_supply`, at time `now`. `token_mints` are
/// the asset mints the caller named, in pool order.
///
/// On success returns the LP tokens to mint: the reserves grow by the amounts,
/// and the position (set up for `user` if it was never written) gains the LP
/// tokens, is active while it holds any, and takes the price range that
/// `concentration` gives around parity. On failure nothing changes.
#[verifier::loop_isolation(false)]
pub fn handler(
    pool: &mut Pool,
    position: &mut UserPosition,
    user: &AccountKey,
    pool_key: &AccountKey,
    position_bump: u8,
    token_mints: &[AccountKey],
    amounts: Vec<u64>,
    min_lp_amount: u64,
    concentration: u64,
    lp_supply: u64,
    now: i64,
) -> (r: Result<u64, ErrorCode>)
    requires
        old(pool).wf(),
    ensures
        match r {
            Ok(lp) => {
                &&& deposit_error(
                    *old(pool),
                    *old(position),
                    *user,
                    *pool_key,
                    token_mints@,
                    amounts@,
                    min_lp_amount,
                    concentration,
                    lp_supply,
                ) is None
                &&& lp_to_mint(
                    old(pool).reserves@,
                    deposited(old(pool).reserves@, amounts@),
                    amounts@,
                    lp_supply,
                    old(pool).amplification,
                ) == Ok::<u64, ErrorCode>(lp)
                &&& final(pool).reserves@ == deposited(old(pool).reserves@, amounts@)
                &&& final(pool).same_config(old(pool))
                &&& final(pool).total_fees == old(pool).total_fees
                &&& final(pool).last_update == now
                &&& final(position).lp_amount == old(position).lp_amount + lp
                &&& final(position).min_price == position_bounds(
                    PRICE_DENOMINATOR as int,
                    concentration as int,
                ).0
                &&& final(position).max_price == position_bounds(
                    PRICE_DENOMINATOR as int,
                    concentration as int,
                ).1
                &&& final(position).is_active == (final(position).lp_amount > 0)
                &&& final(position).wf()
                &&& final(position).last_update == now
                &&& final(position).owner@ == user@
                &&& final(position).pool@ == (if old(position).owner.is_unset() {
                    pool_key@
                } else {
                    old(position).pool@
                })
                &&& old(position).owner.is_unset() ==> final(position).bump == position_bump
                    && final(position).created_at == now
                &&& !old(position).owner.is_unset() ==> final(position).bump == old(
                    position,
                ).bump && final(position).created_at == old(position).created_at
            },
            Err(e) => {
                &&& deposit_error(
                    *old(pool),
                    *old(position),
                    *user,
                    *pool_key,
                    token_mints@,
                    amounts@,
                    min_lp_amount,
                    concentration,
                    lp_supply,
                ) == Some(e)
                &&& *final(pool) == *old(pool)
                &&& *final(position) == *old(position)
            },
        },
        final(pool).wf(),
{
    let is_new = position.owner.is_default();
    if !is_new && position.owner != *user {
        return Err(ErrorCode::Unauthorized);
    }
    if !is_new && position.pool != *pool_key {
        return Err(ErrorCode::InvalidPoolType);
    }
    let n = pool.pool_type.token_count();
    if amounts.len() != n {
        return Err(ErrorCode::InvalidInputLength);
    }
    if token_mints.len() < n {
        return Err(ErrorCode::InvalidTokenMint);
    }
    let mut i: usize = 0;
    while i < n
        invariant
            i <= n,
            n == pool.pool_type.arity(),
            n == pool.token_mints@.len(),
            token_mints@.len() >= n,
            forall|j: int| 0 <= j < i ==> #[trigger] token_mints@[j]@ == pool.token_mints@[j]@,
        decreases n - i,
    {
        if token_mints[i] != pool.token_mints[i] {
            assert(!keys_match(pool.token_mints@, token_mints@, n as nat)) by {
                assert(token_mints@[i as int]@ != pool.token_mints@[i as int]@);
            }
            return Err(ErrorCode::InvalidTokenMint);
        }
        i = i + 1;
    }
    assert(keys_match(pool.token_mints@, token_mints@, n as nat));
    let ghost old_reserves = pool.reserves@;
    let mut new_reserves: Vec<u64> = Vec::new();
    let mut i: usize = 0;
    while i < n
        invariant
            i <= n,
            n == old_reserves.len(),
            n == amounts@.len(),
            old_reserves == pool.reserves@,
            new_reserves@.len() == i,
            forall|j: int| 0 <= j < i ==> #[trigger] new_reserves@[j] == old_reserves[j] + amounts@[j],
        decreases n - i,
    {
        let reserve = pool.reserves[i];
        let amount = amounts[i];
        if reserve > u64::MAX - amount {
            assert(deposit_overflows(old_reserves, amounts@)) by {
                assert(old_reserves[i as int] + amounts@[i as int] > u64::MAX);
            }
            return Err(ErrorCode::MathOverflow);
        }
        new_reserves.push(reserve + amount);
        i = i + 1;
    }
    assert(new_reserves@ =~= deposited(old_reserves, amounts@));
    assert(!deposit_overflows(old_reserves, amounts@)) by {
        assert forall|j: int| 0 <= j < old_reserves.len() implies #[trigger] old_reserves[j]
            + amounts@[j] <= u64::MAX by {
            assert(new_reserves@[j] == old_reserves[j] + amounts@[j]);
        }
    }
    let lp = match calculate_lp_amount(
        pool.reserves.as_slice(),
        new_reserves.as_slice(),
        amounts.as_slice(),
        lp_supply,
        pool.amplification,
    ) {
        Ok(v) => v,
        Err(e) => return Err(e),
    };
    if lp < min_lp_amount {
        return Err(ErrorCode::SlippageExceeded);
    }
    if concentration > (u64::MAX - PRICE_DENOMINATOR) / PRICE_INCREMENT {
        return Err(ErrorCode::MathOverflow);
    }
    let (min_price, max_price) = calculate_position_bounds(PRICE_DENOMINATOR, concentration);
    if position.lp_amount > u64::MAX - lp {
        return Err(ErrorCode::MathOverflow);
    }
    pool.reserves = new_reserves;
    pool.last_update = now;
    if is_new {
        position.bump = position_bump;
        position.owner = *user;
        position.pool = *pool_key;
        position.created_at = now;
    }
    position.lp_amount = position.lp_amount + lp;
    position.min_price = min_price;
    position.max_price = max_price;
    position.is_active = position.lp_amount > 0;
    position.last_update = now;
    Ok(lp)
}

} // verus!
