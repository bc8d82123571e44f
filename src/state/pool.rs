//! Pool state and its invariants.
use vstd::prelude::*;

use crate::state::key::AccountKey;
use crate::state::math::{sum_of, BASIS_POINTS};

verus! {

/// Kind of a pool, fixed when the pool is created.
#[derive(Clone, Copy, Debug, PartialEq, Eq, Structural)]
pub enum PoolType {
    /// Three assets with arbitrary target weights.
    Seed,
    /// Two assets at 50/50, pegged against a seed pool.
    Growth,
}

impl PoolType {
    /// Number of assets a pool of this kind holds.
    pub open spec fn arity(self) -> nat {
        match self {
            PoolType::Seed => 3,
            PoolType::Growth => 2,
        }
    }

    /// Number of assets a pool of this kind holds.
    pub fn token_count(&self) -> (r: usize)
        ensures
            r == self.arity(),
    {
        match self {
            PoolType::Seed => 3,
            PoolType::Growth => 2,
        }
    }
}

/// Target weight of each asset of a growth pool, in basis points.
pub const GROWTH_TARGET_WEIGHT: u64 = 5000;

/// A liquidity pool. Reserve `i`, target weight `i` and token account `i` belong
/// to asset `token_mints[i]`.
#[derive(Clone, Debug, PartialEq, Eq)]
pub struct Pool {
    pub bump: u8,
    pub pool_type: PoolType,
    pub amm_config: AccountKey,
    pub token_mints: Vec<AccountKey>,
    pub token_accounts: Vec<AccountKey>,
    pub reserves: Vec<u64>,
    pub lp_mint: AccountKey,
    /// Target weights in basis points, summing to `BASIS_POINTS`.
    pub target_weights: Vec<u64>,
    pub amplification: u64,
    /// Total swap fee collected.
    pub total_fees: u64,
    pub last_update: i64,
    /// For a growth pool, the seed pool it is pegged against.
    pub seed_pool: Option<AccountKey>,
}

impl Pool {
    /// The pool's invariants: one entry per asset in each list, target weights
    /// summing to `BASIS_POINTS` (50/50 for a growth pool), a positive
    /// amplification, and a seed pool reference exactly for a growth pool.
    pub open spec fn wf(&self) -> bool {
        let n = self.pool_type.arity();
        &&& self.token_mints@.len() == n
        &&& self.token_accounts@.len() == n
        &&& self.reserves@.len() == n
        &&& self.target_weights@.len() == n
        &&& sum_of(self.target_weights@) == BASIS_POINTS
        &&& self.amplification >= 1
        &&& (self.pool_type == PoolType::Growth) == self.seed_pool.is_some()
        &&& self.pool_type == PoolType::Growth ==> self.target_weights@ == seq![
            GROWTH_TARGET_WEIGHT,
            GROWTH_TARGET_WEIGHT,
        ]
    }

    /// Whether `self` and `other` agree on everything but the reserves, the fee
    /// counter and the update time.
    pub open spec fn same_config(&self, other: &Pool) -> bool {
        &&& self.bump == other.bump
        &&& self.pool_type == other.pool_type
        &&& self.amm_config == other.amm_config
        &&& self.token_mints@ == other.token_mints@
        &&& self.token_accounts@ == other.token_accounts@
        &&& self.lp_mint == other.lp_mint
        &&& self.target_weights@ == other.target_weights@
        &&& self.amplification == other.amplification
        &&& self.seed_pool == other.seed_pool
    }

    /// Whether the pool's invariants hold.
    pub fn is_well_formed(&self) -> (r: bool)
        ensures
            r == self.wf(),
    {
        let n = self.pool_type.token_count();
        if self.token_mints.len() != n || self.token_accounts.len() != n || self.reserves.len() != n
            || self.target_weights.len() != n {
            return false;
        }
        if self.amplification == 0 {
            return false;
        }
        let is_growth = match self.pool_type {
            PoolType::Growth => true,
            PoolType::Seed => false,
        };
        if is_growth != self.seed_pool.is_some() {
            return false;
        }
        if is_growth && (self.target_weights[0] != GROWTH_TARGET_WEIGHT
            || self.target_weights[1] != GROWTH_TARGET_WEIGHT) {
            return false;
        }
        let mut sum: u64 = 0;
        let mut i: usize = 0;
        let ghost weights = self.target_weights@;
        assert(weights.len() == 2 || weights.len() == 3);
        while i < n
            invariant
                i <= n,
                n == weights.len(),
                weights == self.target_weights@,
                n <= 3,
                sum == crate::state::math::prefix_sum(weights, i as int),
                sum <= BASIS_POINTS,
            decreases n - i,
        {
            let w = self.target_weights[i];
            if w > BASIS_POINTS - sum {
                proof {
                    lemma_prefix_sum_grows(weights, i + 1, n as int);
                }
                return false;
            }
            sum = sum + w;
            i = i + 1;
        }
        if is_growth {
            assert(self.target_weights@ == seq![GROWTH_TARGET_WEIGHT, GROWTH_TARGET_WEIGHT]);
        }
        sum == BASIS_POINTS
    }

    /// Bytes an account holding a pool of `num_tokens` assets takes.
    pub fn space(num_tokens: usize) -> (r: usize)
        requires
            147 + 80 * num_tokens <= usize::MAX,
        ensures
            r == 147 + 80 * num_tokens,
    {
        8 + // discriminator
        1 + // bump
        1 + // pool_type
        32 + // amm_config
        4 + (32 * num_tokens) + // token_mints
        4 + (32 * num_tokens) + // token_accounts
        4 + (8 * num_tokens) + // reserves
        32 + // lp_mint
        4 + (8 * num_tokens) + // target_weights
        8 + // amplification
        8 + // total_fees
        8 + // last_update
        1 + 32  // optional seed_pool
    }
}

proof fn lemma_prefix_sum_grows(s: Seq<u64>, i: int, j: int)
    requires
        0 <= i <= j <= s.len(),
    ensures
        crate::state::math::prefix_sum(s, i) <= crate::state::math::prefix_sum(s, j),
    decreases j - i,
{
    if j > i {
        lemma_prefix_sum_grows(s, i, j - 1);
    }
}

} // verus!
