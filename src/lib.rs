//! Pricing and accounting engine of a multi-asset stable-value AMM: the
//! StableSwap invariant solver, the dynamic fee model, the swap output
//! calculator, proportional liquidity issuance and redemption, position bounds,
//! and the pool and position state changes of each operation.
use vstd::prelude::*;

pub mod errors;
pub mod instructions;
pub mod state;
pub mod utils;

verus! {

} // verus!
