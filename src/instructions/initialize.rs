//! Setting up the engine-wide configuration.
use vstd::prelude::*;

use crate::errors::ErrorCode;
use crate::state::config::AmmConfig;
use crate::state::key::AccountKey;
use crate::state::math::{sum_of, BASIS_POINTS};

verus! {

/// Sets `config` up for `authority`, which also receives the fees, with the given
/// defaults. Refused with `InvalidWeights`, changing nothing, unless the default
/// target weights sum to `BASIS_POINTS`.
pub fn handler(
    config: &mut AmmConfig,
    bump: u8,
    authority: &AccountKey,
    default_amplification: u64,
    default_target_weights: [u64; 3],
) -> (r: Result<(), ErrorCode>)
    ensures
        r is Ok <==> sum_of(default_target_weights@) == BASIS_POINTS,
        r is Ok ==> {
            &&& final(config).bump == bump
            &&& final(config).authority == *authority
            &&& final(config).fee_recipient == *authority
            &&& final(config).default_amplification == default_amplification
            &&& final(config).default_target_weights == default_target_weights
        },
        r is Err ==> r == Err::<(), ErrorCode>(ErrorCode::InvalidWeights) && *final(config) == *old(
            config,
        ),
{
    let sum = default_target_weights[0] as u128 + default_target_weights[1] as u128
        + default_target_weights[2] as u128;
    assert(sum_of(default_target_weights@) == sum) by {
        reveal_with_fuel(crate::state::math::prefix_sum, 4);
    }
    if sum != BASIS_POINTS as u128 {
        return Err(ErrorCode::InvalidWeights);
    }
    config.bump = bump;
    config.authority = *authority;
    config.fee_recipient = *authority;
    config.default_amplification = default_amplification;
    config.default_target_weights = default_target_weights;
    Ok(())
}

} // verus!
