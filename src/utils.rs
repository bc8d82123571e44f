//! Account checks and signer seeds.
use vstd::prelude::*;

use crate::errors::ErrorCode;
use crate::state::key::AccountKey;
use crate::state::pool::{Pool, PoolType};

verus! {

/// Checks that a token account with owner `owner` and mint `mint` is the one
/// expected: a wrong owner is `Unauthorized`, a wrong mint `InvalidTokenMint`.
pub fn verify_token_account(
    owner: &AccountKey,
    mint: &AccountKey,
    expected_owner: &AccountKey,
    expected_mint: &AccountKey,
) -> (r: Result<(), ErrorCode>)
    ensures
        owner@ != expected_owner@ ==> r == Err::<(), ErrorCode>(ErrorCode::Unauthorized),
        owner@ == expected_owner@ && mint@ != expected_mint@ ==> r == Err::<(), ErrorCode>(
            ErrorCode::InvalidTokenMint,
        ),
        owner@ == expected_owner@ && mint@ == expected_mint@ ==> r is Ok,
{
    if *owner != *expected_owner {
        return Err(ErrorCode::Unauthorized);
    }
    if *mint != *expected_mint {
        return Err(ErrorCode::InvalidTokenMint);
    }
    Ok(())
}

/// First seed of every pool address: "pool".
pub open spec fn pool_seed() -> Seq<u8> {
    seq![0x70u8, 0x6f, 0x6f, 0x6c]
}

/// Second seed of a pool address: "seed" or "growth" by kind.
pub open spec fn kind_seed(pool_type: PoolType) -> Seq<u8> {
    match pool_type {
        PoolType::Seed => seq![0x73u8, 0x65, 0x65, 0x64],
        PoolType::Growth => seq![0x67u8, 0x72, 0x6f, 0x77, 0x74, 0x68],
    }
}

/// Seeds a pool signs with: "pool", its kind, the partner mint (growth pools,
/// when given) and the bump.
pub open spec fn signer_seeds(pool_type: PoolType, partner: Option<Seq<u8>>, bump: Seq<u8>) -> Seq<
    Seq<u8>,
> {
    let base = seq![pool_seed(), kind_seed(pool_type)];
    let with_partner = match partner {
        Some(p) => if pool_type == PoolType::Growth {
            base.push(p)
        } else {
            base
        },
        None => base,
    };
    with_partner.push(bump)
}

fn copy_bytes(bytes: &[u8]) -> (r: Vec<u8>)
    ensures
        r@ == bytes@,
{
    let mut out: Vec<u8> = Vec::new();
    let mut i: usize = 0;
    while i < bytes.len()
        invariant
            i <= bytes@.len(),
            out@ == bytes@.subrange(0, i as int),
        decreases bytes.len() - i,
    {
        out.push(bytes[i]);
        i = i + 1;
        assert(out@ =~= bytes@.subrange(0, i as int));
    }
    assert(bytes@.subrange(0, bytes@.len() as int) =~= bytes@);
    out
}

/// Seeds `pool` signs with, given its partner mint and bump (the bytes of
/// "pool", "seed" and "growth" are written out in ASCII).
pub fn get_pool_signer_seeds(pool: &Pool, partner_token_mint: Option<&[u8]>, bump: &[u8]) -> (r:
    Vec<Vec<u8>>)
    ensures
        r@.len() == signer_seeds(
            pool.pool_type,
            match partner_token_mint {
                Some(p) => Some(p@),
                None => None,
            },
            bump@,
        ).len(),
        forall|i: int|
            0 <= i < r@.len() ==> #[trigger] r@[i]@ == signer_seeds(
                pool.pool_type,
                match partner_token_mint {
                    Some(p) => Some(p@),
                    None => None,
                },
                bump@,
            )[i],
{
    let mut seeds: Vec<Vec<u8>> = Vec::new();
    seeds.push(vec![0x70u8, 0x6f, 0x6f, 0x6c]);
    let is_growth = match pool.pool_type {
        PoolType::Seed => false,
        PoolType::Growth => true,
    };
    if is_growth {
        seeds.push(vec![0x67u8, 0x72, 0x6f, 0x77, 0x74, 0x68]);
    } else {
        seeds.push(vec![0x73u8, 0x65, 0x65, 0x64]);
    }
    if is_growth {
        if let Some(partner) = partner_token_mint {
            seeds.push(copy_bytes(partner));
        }
    }
    seeds.push(copy_bytes(bump));
    seeds
}

} // verus!
