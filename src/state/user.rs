//! A liquidity provider's position in one pool.
use vstd::prelude::*;

use crate::state::key::AccountKey;

verus! {

/// LP tokens one owner holds in one pool, with the price range they were
/// committed to.
#[derive(Clone, Copy, Debug, PartialEq, Eq)]
pub struct UserPosition {
    pub bump: u8,
    pub owner: AccountKey,
    pub pool: AccountKey,
    pub lp_amount: u64,
    /// Lower edge of the price range, in price-denominator units.
    pub min_price: u64,
    /// Upper edge of the price range, in price-denominator units.
    pub max_price: u64,
    /// Whether the position holds LP tokens.
    pub is_active: bool,
    pub created_at: i64,
    pub last_update: i64,
}

impl UserPosition {
    /// The position's invariants: an ordered price range, and active exactly
    /// while it holds LP tokens.
    pub open spec fn wf(&self) -> bool {
        &&& self.min_price <= self.max_price
        &&& self.is_active == (self.lp_amount > 0)
    }

    /// Bytes an account holding a position takes.
    pub fn space() -> (r: usize)
        ensures
            r == 114,
    {
        8 + // discriminator
        1 + // bump
        32 + // owner
        32 + // pool
        8 + // lp_amount
        8 + // min_price
        8 + // max_price
        1 + // is_active
        8 + // created_at
        8  // last_update
    }
}

} // verus!
