//! Engine-wide configuration.
use vstd::prelude::*;

use crate::state::key::AccountKey;

verus! {

/// Defaults and authorities shared by every pool.
#[derive(Clone, Copy, Debug, PartialEq, Eq)]
pub struct AmmConfig {
    pub bump: u8,
    /// May update the configuration.
    pub authority: AccountKey,
    /// Receives collected fees.
    pub fee_recipient: AccountKey,
    pub default_amplification: u64,
    /// Default target weights of a seed pool, in basis points.
    pub default_target_weights: [u64; 3],
}

} // verus!
