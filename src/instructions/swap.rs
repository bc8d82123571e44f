//! Swaps of one pool asset for another.
use vstd::prelude::*;

use crate::errors::ErrorCode;
use crate::state::key::AccountKey;
use crate::state::math::{
    calculate_dynamic_fee, calculate_output_amount, calculate_weights, dynamic_fee,
    output_amount, weights_of,
};
use crate::state::pool::Pool;

verus! {

/// Whether `i` is the first position of `key` in `keys`.
pub open spec fn is_first_index(keys: Seq<AccountKey>, key: AccountKey, i: int) -> bool {
    &&& 0 <= i < keys.len()
    &&& keys[i]@ == key@
    &&& forall|j: int| 0 <= j < i ==> #[trigger] keys[j]@ != key@
}

/// Whether `key` occurs in `keys`.
pub open spec fn contains_key(keys: Seq<AccountKey>, key: AccountKey) -> bool {
    exists|i: int| 0 <= i < keys.len() && #[trigger] keys[i]@ == key@
}

/// First position of `key` in `keys` (meaningful when it occurs).
pub open spec fn first_index(keys: Seq<AccountKey>, key: AccountKey) -> int {
    choose|i: int| is_first_index(keys, key, i)
}

/// First position of `key` in `keys`, if it occurs.
pub fn find_key(keys: &Vec<AccountKey>, key: &AccountKey) -> (r: Option<usize>)
    ensures
        match r {
            Some(i) => is_first_index(keys@, *key, i as int) && first_index(keys@, *key) == i,
            None => !contains_key(keys@, *key),
        },
{
    let mut i: usize = 0;
    while i < keys.len()
        invariant
            i <= keys@.len(),
            forall|j: int| 0 <= j < i ==> #[trigger] keys@[j]@ != key@,
        decreases keys.len() - i,
    {
        if keys[i] == *key {
            assert(is_first_index(keys@, *key, i as int));
            proof {
                let k = first_index(keys@, *key);
                assert(is_first_index(keys@, *key, k));
                if k < i {
                    assert(keys@[k]@ != key@);
                } else if k > i {
                    assert(keys@[i as int]@ != key@);
                }
            }
            return Some(i);
        }
        i = i + 1;
    }
    None
}

/// Fee, in parts per 1000, that a swap on `pool` pays: the dynamic fee of its
/// current weights against its target weights.
pub open spec fn pool_fee(pool: Pool) -> int {
    dynamic_fee(weights_of(pool.reserves@), pool.target_weights@)
}

/// Output of swapping `amount_in` of `mint_in` for `mint_out` on `pool`, given
/// that both mints belong to the pool.
pub open spec fn swap_output(
    pool: Pool,
    mint_in: AccountKey,
    mint_out: AccountKey,
    amount_in: u64,
) -> Option<u64> {
    let i = first_index(pool.token_mints@, mint_in);
    let o = first_index(pool.token_mints@, mint_out);
    output_amount(
        amount_in,
        pool.reserves@[i],
        pool.reserves@[o],
        pool_fee(pool) as u64,
        pool.amplification,
    )
}

/// Why a swap is refused, if it is: a mint the pool does not hold, no output
/// (`InvalidSwap`), an output below `min_amount_out`, or an input reserve that
/// would overflow.
pub open spec fn swap_error(
    pool: Pool,
    mint_in: AccountKey,
    mint_out: AccountKey,
    amount_in: u64,
    min_amount_out: u64,
) -> Option<ErrorCode> {
    if !contains_key(pool.token_mints@, mint_in) || !contains_key(pool.token_mints@, mint_out) {
        Some(ErrorCode::InvalidTokenMint)
    } else {
        match swap_output(pool, mint_in, mint_out, amount_in) {
            None => Some(ErrorCode::InvalidSwap),
            Some(out) => if out < min_amount_out {
                Some(ErrorCode::SlippageExceeded)
            } else if pool.reserves@[first_index(pool.token_mints@, mint_in)] + amount_in
                > u64::MAX {
                Some(ErrorCode::MathOverflow)
            } else {
                None
            },
        }
    }
}

/// Swaps `amount_in` of asset `mint_in` for asset `mint_out` at time `now`.
///
/// On success returns the output amount: the input reserve grows by
/// `amount_in` and the output reserve shrinks by the output (held at zero). On
/// failure nothing changes.
pub fn handler(
    pool: &mut Pool,
    mint_in: &AccountKey,
    mint_out: &AccountKey,
    amount_in: u64,
    min_amount_out: u64,
    now: i64,
) -> (r: Result<u64, ErrorCode>)
    requires
        old(pool).wf(),
    ensures
        match r {
            Ok(out) => {
                let i = first_index(old(pool).token_mints@, *mint_in);
                let o = first_index(old(pool).token_mints@, *mint_out);
                let grown = old(pool).reserves@.update(
                    i,
                    (old(pool).reserves@[i] + amount_in) as u64,
                );
                &&& swap_error(*old(pool), *mint_in, *mint_out, amount_in, min_amount_out) is None
                &&& swap_output(*old(pool), *mint_in, *mint_out, amount_in) == Some(out)
                &&& final(pool).reserves@ == grown.update(
                    o,
                    (if grown[o] >= out {
                        grown[o] - out
                    } else {
                        0
                    }) as u64,
                )
                &&& final(pool).same_config(old(pool))
                &&& final(pool).total_fees == old(pool).total_fees
                &&& final(pool).last_update == now
            },
            Err(e) => {
                &&& swap_error(*old(pool), *mint_in, *mint_out, amount_in, min_amount_out)
                    == Some(e)
                &&& *final(pool) == *old(pool)
            },
        },
        final(pool).wf(),
{
    let token_in_idx = match find_key(&pool.token_mints, mint_in) {
        Some(i) => i,
        None => return Err(ErrorCode::InvalidTokenMint),
    };
    let token_out_idx = match find_key(&pool.token_mints, mint_out) {
        Some(i) => i,
        None => return Err(ErrorCode::InvalidTokenMint),
    };
    let in_reserve = pool.reserves[token_in_idx];
    let out_reserve = pool.reserves[token_out_idx];
    let current_weights = calculate_weights(pool.reserves.as_slice());
    let fee = calculate_dynamic_fee(current_weights.as_slice(), pool.target_weights.as_slice());
    let amount_out = match calculate_output_amount(
        amount_in,
        in_reserve,
        out_reserve,
        fee,
        pool.amplification,
    ) {
        Some(v) => v,
        None => return Err(ErrorCode::InvalidSwap),
    };
    if amount_out < min_amount_out {
        return Err(ErrorCode::SlippageExceeded);
    }
    if in_reserve > u64::MAX - amount_in {
        return Err(ErrorCode::MathOverflow);
    }
    pool.reserves[token_in_idx] = in_reserve + amount_in;
    let grown_out = pool.reserves[token_out_idx];
    pool.reserves[token_out_idx] = grown_out.saturating_sub(amount_out);
    pool.last_update = now;
    Ok(amount_out)
}

} // verus!
