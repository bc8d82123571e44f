use equilibrium_core::errors::ErrorCode;
use equilibrium_core::instructions::create_pool::{create_growth_pool, create_seed_pool};
use equilibrium_core::instructions::deposit::{self, calculate_lp_amount};
use equilibrium_core::instructions::initialize;
use equilibrium_core::instructions::swap::{self, find_key};
use equilibrium_core::instructions::withdraw::{self, calculate_withdrawal_amounts};
use equilibrium_core::state::config::AmmConfig;
use equilibrium_core::state::key::AccountKey;
use equilibrium_core::state::pool::{Pool, PoolType};
use equilibrium_core::state::user::UserPosition;
use equilibrium_core::utils::{get_pool_signer_seeds, verify_token_account};

fn key(b: u8) -> AccountKey {
    AccountKey::new([b; 32])
}

fn seed_pool(initial: Vec<u64>) -> Pool {
    let (pool, _) = create_seed_pool(
        &key(1),
        [key(10), key(11), key(12)],
        [key(20), key(21), key(22)],
        &key(30),
        254,
        100,
        vec![3334, 3333, 3333],
        initial,
        7,
    )
    .unwrap();
    pool
}

fn empty_position() -> UserPosition {
    UserPosition {
        bump: 0,
        owner: AccountKey::unset(),
        pool: AccountKey::unset(),
        lp_amount: 0,
        min_price: 0,
        max_price: 0,
        is_active: false,
        created_at: 0,
        last_update: 0,
    }
}

fn held_position(owner: AccountKey, pool: AccountKey, lp_amount: u64) -> UserPosition {
    UserPosition {
        bump: 3,
        owner,
        pool,
        lp_amount,
        min_price: 990,
        max_price: 1010,
        is_active: lp_amount > 0,
        created_at: 1,
        last_update: 1,
    }
}

#[test]
fn seed_pool_mints_sum_of_amounts() {
    let (pool, lp) = create_seed_pool(
        &key(1),
        [key(10), key(11), key(12)],
        [key(20), key(21), key(22)],
        &key(30),
        254,
        100,
        vec![5000, 3000, 2000],
        vec![100, 200, 300],
        7,
    )
    .unwrap();
    assert_eq!(lp, 600);
    assert_eq!(pool.pool_type, PoolType::Seed);
    assert_eq!(pool.reserves, vec![100, 200, 300]);
    assert_eq!(pool.token_mints, vec![key(10), key(11), key(12)]);
    assert_eq!(pool.target_weights, vec![5000, 3000, 2000]);
    assert_eq!(pool.seed_pool, None);
    assert_eq!(pool.last_update, 7);
    assert!(pool.is_well_formed());
}

#[test]
fn seed_pool_rejects_bad_input() {
    let mints = [key(10), key(11), key(12)];
    let accounts = [key(20), key(21), key(22)];
    let r = create_seed_pool(&key(1), mints, accounts, &key(30), 1, 100, vec![5000, 5000], vec![1, 2, 3], 0);
    assert_eq!(r.err(), Some(ErrorCode::InvalidInputLength));
    let r = create_seed_pool(&key(1), mints, accounts, &key(30), 1, 100, vec![5000, 3000, 1000], vec![1, 2, 3], 0);
    assert_eq!(r.err(), Some(ErrorCode::InvalidWeights));
    let r = create_seed_pool(&key(1), mints, accounts, &key(30), 1, 0, vec![5000, 3000, 2000], vec![1, 2, 3], 0);
    assert_eq!(r.err(), Some(ErrorCode::InvalidAmplification));
    let r = create_seed_pool(&key(1), mints, accounts, &key(30), 1, 100, vec![5000, 3000, 2000], vec![u64::MAX, 1, 0], 0);
    assert_eq!(r.err(), Some(ErrorCode::MathOverflow));
}

#[test]
fn growth_pool_mints_twice_smaller_amount() {
    let seed = seed_pool(vec![1000, 1000, 1000]);
    let (pool, lp) = create_growth_pool(&seed, &key(40), &key(1), [key(50), key(51)], [key(60), key(61)], &key(70), 9, 50, 300, 200, 11).unwrap();
    assert_eq!(lp, 400);
    assert_eq!(pool.pool_type, PoolType::Growth);
    assert_eq!(pool.reserves, vec![300, 200]);
    assert_eq!(pool.target_weights, vec![5000, 5000]);
    assert_eq!(pool.seed_pool, Some(key(40)));
    assert!(pool.is_well_formed());
}

#[test]
fn growth_pool_needs_seed_pool() {
    let seed = seed_pool(vec![1000, 1000, 1000]);
    let (growth, _) = create_growth_pool(&seed, &key(40), &key(1), [key(50), key(51)], [key(60), key(61)], &key(70), 9, 50, 300, 200, 11).unwrap();
    let r = create_growth_pool(&growth, &key(41), &key(1), [key(52), key(53)], [key(62), key(63)], &key(71), 9, 50, 300, 200, 11);
    assert_eq!(r.err(), Some(ErrorCode::InvalidPoolType));
    let r = create_growth_pool(&seed, &key(40), &key(1), [key(50), key(51)], [key(60), key(61)], &key(70), 9, 0, 300, 200, 11);
    assert_eq!(r.err(), Some(ErrorCode::InvalidAmplification));
    let r = create_growth_pool(&seed, &key(40), &key(1), [key(50), key(51)], [key(60), key(61)], &key(70), 9, 50, u64::MAX, u64::MAX, 11);
    assert_eq!(r.err(), Some(ErrorCode::MathOverflow));
}

#[test]
fn well_formedness_check() {
    let mut pool = seed_pool(vec![1, 2, 3]);
    assert!(pool.is_well_formed());
    pool.target_weights = vec![5000, 5000, 1];
    assert!(!pool.is_well_formed());
    pool.target_weights = vec![u64::MAX, 1, 0];
    assert!(!pool.is_well_formed());
    pool.target_weights = vec![5000, 5000, 0];
    pool.amplification = 0;
    assert!(!pool.is_well_formed());
}

#[test]
fn space_of_accounts() {
    assert_eq!(Pool::space(3), 387);
    assert_eq!(Pool::space(2), 307);
    assert_eq!(UserPosition::space(), 114);
}

#[test]
fn bootstrap_deposit_mints_sum() {
    assert_eq!(calculate_lp_amount(&[0, 0, 0], &[100, 200, 300], &[100, 200, 300], 0, 100), Ok(600));
    assert_eq!(calculate_lp_amount(&[0, 0], &[u64::MAX, 1], &[u64::MAX, 1], 0, 100), Err(ErrorCode::MathOverflow));
}

#[test]
fn deposit_mints_by_invariant_growth() {
    assert_eq!(calculate_lp_amount(&[1000, 1000], &[1100, 1100], &[100, 100], 2000, 100), Ok(200));
    assert_eq!(calculate_lp_amount(&[1000, 1000], &[1100, 1000], &[100, 0], 2000, 100), Ok(99));
}

#[test]
fn deposit_with_falling_invariant_fails() {
    assert_eq!(calculate_lp_amount(&[1000, 1000], &[900, 1000], &[0, 0], 2000, 100), Err(ErrorCode::MathOverflow));
}

#[test]
fn deposit_into_unpriceable_pool_fails() {
    assert_eq!(calculate_lp_amount(&[3000, 0, 0], &[3100, 0, 0], &[100, 0, 0], 3000, 100), Err(ErrorCode::MathOverflow));
}

#[test]
fn deposit_handler_updates_pool_and_position() {
    let mut pool = seed_pool(vec![1000, 1000, 1000]);
    let mut position = empty_position();
    let mints = [key(10), key(11), key(12)];
    let lp = deposit::handler(&mut pool, &mut position, &key(90), &key(91), 5, &mints, vec![100, 100, 100], 250, 2, 3000, 42).unwrap();
    assert_eq!(lp, 300);
    assert_eq!(pool.reserves, vec![1100, 1100, 1100]);
    assert_eq!(pool.last_update, 42);
    assert_eq!(position.owner, key(90));
    assert_eq!(position.pool, key(91));
    assert_eq!(position.bump, 5);
    assert_eq!(position.created_at, 42);
    assert_eq!(position.lp_amount, 300);
    assert_eq!((position.min_price, position.max_price), (990, 1010));
    assert!(position.is_active);
}

#[test]
fn empty_deposit_leaves_position_inactive() {
    let mut pool = seed_pool(vec![1000, 1000, 1000]);
    let mut position = empty_position();
    let mints = [key(10), key(11), key(12)];
    let lp = deposit::handler(&mut pool, &mut position, &key(90), &key(91), 5, &mints, vec![0, 0, 0], 0, 1, 3000, 42).unwrap();
    assert_eq!(lp, 0);
    assert_eq!(position.lp_amount, 0);
    assert!(!position.is_active);
    assert_eq!((position.min_price, position.max_price), (995, 1005));
}

#[test]
fn deposit_handler_failures_change_nothing() {
    let mut pool = seed_pool(vec![1000, 1000, 1000]);
    let mut position = empty_position();
    let before_pool = pool.clone();
    let before_position = position.clone();
    let mints = [key(10), key(11), key(12)];
    let r = deposit::handler(&mut pool, &mut position, &key(90), &key(91), 5, &mints, vec![100, 100], 0, 2, 3000, 42);
    assert_eq!(r, Err(ErrorCode::InvalidInputLength));
    let wrong = [key(10), key(13), key(12)];
    let r = deposit::handler(&mut pool, &mut position, &key(90), &key(91), 5, &wrong, vec![100, 100, 100], 0, 2, 3000, 42);
    assert_eq!(r, Err(ErrorCode::InvalidTokenMint));
    let r = deposit::handler(&mut pool, &mut position, &key(90), &key(91), 5, &mints[..2], vec![100, 100, 100], 0, 2, 3000, 42);
    assert_eq!(r, Err(ErrorCode::InvalidTokenMint));
    let r = deposit::handler(&mut pool, &mut position, &key(90), &key(91), 5, &mints, vec![100, 100, 100], 301, 2, 3000, 42);
    assert_eq!(r, Err(ErrorCode::SlippageExceeded));
    let r = deposit::handler(&mut pool, &mut position, &key(90), &key(91), 5, &mints, vec![u64::MAX, 0, 0], 0, 2, 3000, 42);
    assert_eq!(r, Err(ErrorCode::MathOverflow));
    let r = deposit::handler(&mut pool, &mut position, &key(90), &key(91), 5, &mints, vec![100, 100, 100], 0, u64::MAX, 3000, 42);
    assert_eq!(r, Err(ErrorCode::MathOverflow));
    assert_eq!(pool, before_pool);
    assert_eq!(position, before_position);
}

#[test]
fn deposit_into_someone_elses_position_is_refused() {
    let mut pool = seed_pool(vec![1000, 1000, 1000]);
    let mut position = held_position(key(90), key(91), 10);
    let mints = [key(10), key(11), key(12)];
    let r = deposit::handler(&mut pool, &mut position, &key(92), &key(91), 5, &mints, vec![1, 1, 1], 0, 2, 3000, 42);
    assert_eq!(r, Err(ErrorCode::Unauthorized));
    let r = deposit::handler(&mut pool, &mut position, &key(90), &key(93), 5, &mints, vec![1, 1, 1], 0, 2, 3000, 42);
    assert_eq!(r, Err(ErrorCode::InvalidPoolType));
}

#[test]
fn full_withdrawal_returns_reserves() {
    let reserves = [1000u64, 2001, 7];
    assert_eq!(calculate_withdrawal_amounts(&reserves, 5000, 5000, &[]), Ok(vec![1000, 2001, 7]));
}

#[test]
fn partial_withdrawal_rounds_down() {
    // ratio 3333 basis points
    assert_eq!(calculate_withdrawal_amounts(&[1000, 3000], 1, 3, &[333, 999]), Ok(vec![333, 999]));
    assert_eq!(calculate_withdrawal_amounts(&[1000, 3000], 1, 3, &[333, 1000]), Err(ErrorCode::SlippageExceeded));
}

#[test]
fn withdrawal_amount_errors() {
    assert_eq!(calculate_withdrawal_amounts(&[1000], 1, 0, &[]), Err(ErrorCode::MathOverflow));
    assert_eq!(calculate_withdrawal_amounts(&[1000], 4, 3, &[]), Err(ErrorCode::InsufficientLiquidity));
}

#[test]
fn withdraw_handler_burns_and_pays() {
    let mut pool = seed_pool(vec![1000, 2000, 3000]);
    let mut position = held_position(key(90), key(91), 6000);
    let out = withdraw::handler(&mut pool, &mut position, &key(90), &key(91), 3000, vec![0, 0, 0], 6000, 50).unwrap();
    assert_eq!(out, vec![500, 1000, 1500]);
    assert_eq!(pool.reserves, vec![500, 1000, 1500]);
    assert_eq!(pool.last_update, 50);
    assert_eq!(position.lp_amount, 3000);
    assert!(position.is_active);
    let out = withdraw::handler(&mut pool, &mut position, &key(90), &key(91), 3000, vec![0, 0, 0], 3000, 51).unwrap();
    assert_eq!(out, vec![500, 1000, 1500]);
    assert_eq!(pool.reserves, vec![0, 0, 0]);
    assert_eq!(position.lp_amount, 0);
    assert!(!position.is_active);
}

#[test]
fn withdraw_more_than_held_fails_without_change() {
    let mut pool = seed_pool(vec![1000, 2000, 3000]);
    let mut position = held_position(key(90), key(91), 100);
    let before_pool = pool.clone();
    let before_position = position.clone();
    let r = withdraw::handler(&mut pool, &mut position, &key(90), &key(91), 200, vec![0, 0, 0], 6000, 50);
    assert_eq!(r, Err(ErrorCode::InsufficientLiquidity));
    assert_eq!(pool, before_pool);
    assert_eq!(position, before_position);
}

#[test]
fn withdraw_checks_position() {
    let mut pool = seed_pool(vec![1000, 2000, 3000]);
    let mut position = held_position(key(90), key(91), 100);
    let r = withdraw::handler(&mut pool, &mut position, &key(92), &key(91), 10, vec![0, 0, 0], 6000, 50);
    assert_eq!(r, Err(ErrorCode::Unauthorized));
    let r = withdraw::handler(&mut pool, &mut position, &key(90), &key(93), 10, vec![0, 0, 0], 6000, 50);
    assert_eq!(r, Err(ErrorCode::InvalidPoolType));
    let r = withdraw::handler(&mut pool, &mut position, &key(90), &key(91), 10, vec![0, 0], 6000, 50);
    assert_eq!(r, Err(ErrorCode::InvalidInputLength));
    let r = withdraw::handler(&mut pool, &mut position, &key(90), &key(91), 10, vec![0, 0, 1000], 6000, 50);
    assert_eq!(r, Err(ErrorCode::SlippageExceeded));
    let mut inactive = held_position(key(90), key(91), 0);
    let r = withdraw::handler(&mut pool, &mut inactive, &key(90), &key(91), 0, vec![0, 0, 0], 6000, 50);
    assert_eq!(r, Err(ErrorCode::PositionNotActive));
}

#[test]
fn swap_handler_finds_mints() {
    let mut pool = seed_pool(vec![1000, 1000, 1000]);
    let before = pool.clone();
    let r = swap::handler(&mut pool, &key(99), &key(11), 100, 0, 5);
    assert_eq!(r, Err(ErrorCode::InvalidTokenMint));
    let r = swap::handler(&mut pool, &key(10), &key(99), 100, 0, 5);
    assert_eq!(r, Err(ErrorCode::InvalidTokenMint));
    assert_eq!(pool, before);
}

#[test]
fn swap_handler_refuses_reference_swap() {
    let mut pool = seed_pool(vec![1000, 1000, 1000]);
    let before = pool.clone();
    let r = swap::handler(&mut pool, &key(10), &key(11), 100, 0, 5);
    assert_eq!(r, Err(ErrorCode::InvalidSwap));
    assert_eq!(pool, before);
}

#[test]
fn find_key_takes_first() {
    let keys = vec![key(1), key(2), key(1)];
    assert_eq!(find_key(&keys, &key(1)), Some(0));
    assert_eq!(find_key(&keys, &key(2)), Some(1));
    assert_eq!(find_key(&keys, &key(3)), None);
}

#[test]
fn initialize_checks_weights() {
    let mut config = AmmConfig {
        bump: 0,
        authority: AccountKey::unset(),
        fee_recipient: AccountKey::unset(),
        default_amplification: 0,
        default_target_weights: [0, 0, 0],
    };
    let before = config.clone();
    assert_eq!(initialize::handler(&mut config, 1, &key(5), 100, [5000, 3000, 1000]), Err(ErrorCode::InvalidWeights));
    assert_eq!(config, before);
    assert_eq!(initialize::handler(&mut config, 1, &key(5), 100, [5000, 3000, 2000]), Ok(()));
    assert_eq!(config.authority, key(5));
    assert_eq!(config.fee_recipient, key(5));
    assert_eq!(config.default_amplification, 100);
    assert_eq!(config.default_target_weights, [5000, 3000, 2000]);
}

#[test]
fn token_account_checks() {
    assert_eq!(verify_token_account(&key(1), &key(2), &key(1), &key(2)), Ok(()));
    assert_eq!(verify_token_account(&key(3), &key(2), &key(1), &key(2)), Err(ErrorCode::Unauthorized));
    assert_eq!(verify_token_account(&key(1), &key(3), &key(1), &key(2)), Err(ErrorCode::InvalidTokenMint));
}

#[test]
fn signer_seeds_by_kind() {
    let seed = seed_pool(vec![1, 1, 1]);
    let seeds = get_pool_signer_seeds(&seed, Some(&[9u8, 9][..]), &[254]);
    assert_eq!(seeds, vec![b"pool".to_vec(), b"seed".to_vec(), vec![254]]);
    let (growth, _) = create_growth_pool(&seed, &key(40), &key(1), [key(50), key(51)], [key(60), key(61)], &key(70), 9, 50, 300, 200, 11).unwrap();
    let seeds = get_pool_signer_seeds(&growth, Some(&[9u8, 9][..]), &[253]);
    assert_eq!(seeds, vec![b"pool".to_vec(), b"growth".to_vec(), vec![9, 9], vec![253]]);
    let seeds = get_pool_signer_seeds(&growth, None, &[253]);
    assert_eq!(seeds, vec![b"pool".to_vec(), b"growth".to_vec(), vec![253]]);
}

#[test]
fn unset_key_is_default() {
    assert!(AccountKey::unset().is_default());
    assert!(!key(1).is_default());
}
