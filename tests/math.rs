use equilibrium_core::state::math::{
    calculate_dynamic_fee, calculate_invariant, calculate_new_reserve_out,
    calculate_output_amount, calculate_position_bounds, calculate_weights, MAX_FEE,
};

#[test]
fn invariant_of_equal_pair_is_their_sum() {
    assert_eq!(calculate_invariant(&[1000, 1000], 100), Some(2000));
}

#[test]
fn invariant_of_equal_reserves_ignores_amplification() {
    for amp in [1u64, 2, 10, 100, 5000] {
        assert_eq!(calculate_invariant(&[7, 7, 7], amp), Some(21));
        assert_eq!(calculate_invariant(&[123_456, 123_456], amp), Some(246_912));
        assert_eq!(calculate_invariant(&[5, 5, 5, 5], amp), Some(20));
    }
}

#[test]
fn invariant_of_unequal_reserves() {
    assert_eq!(calculate_invariant(&[1000, 2000], 100), Some(2999));
    assert_eq!(calculate_invariant(&[500, 1500, 1000], 50), Some(2999));
    assert_eq!(calculate_invariant(&[1, 1_000_000], 10), Some(53330));
}

#[test]
fn invariant_refuses_zero_reserves() {
    assert_eq!(calculate_invariant(&[3000, 0, 0], 100), None);
    assert_eq!(calculate_invariant(&[0, 1000], 100), None);
}

#[test]
fn invariant_refuses_empty_and_zero_amplification() {
    assert_eq!(calculate_invariant(&[], 100), None);
    assert_eq!(calculate_invariant(&[1000, 1000], 0), None);
}

#[test]
fn invariant_refuses_overflowing_intermediates() {
    assert_eq!(calculate_invariant(&[u64::MAX, u64::MAX], 100), None);
}

#[test]
fn weights_round_down() {
    let w = calculate_weights(&[1, 1, 1]);
    assert_eq!(w, vec![3333, 3333, 3333]);
    assert_eq!(w.iter().sum::<u64>(), 9999);
}

#[test]
fn weights_of_simple_pool() {
    assert_eq!(calculate_weights(&[1000, 3000]), vec![2500, 7500]);
    assert_eq!(calculate_weights(&[3000, 0, 0]), vec![10000, 0, 0]);
}

#[test]
fn weights_of_empty_pool_are_zero() {
    assert_eq!(calculate_weights(&[0, 0, 0]), vec![0, 0, 0]);
    assert_eq!(calculate_weights(&[]), Vec::<u64>::new());
}

#[test]
fn weights_sum_within_rounding_bound() {
    for reserves in [vec![1u64, 2, 3], vec![7, 11, 13], vec![999, 1, 1], vec![u64::MAX, u64::MAX, 1]] {
        let w = calculate_weights(&reserves);
        let sum: u64 = w.iter().sum();
        assert!(sum <= 10000);
        assert!(sum >= 10000 - (reserves.len() as u64 - 1));
    }
}

#[test]
fn fee_at_target_is_base() {
    assert_eq!(calculate_dynamic_fee(&[3334, 3333, 3333], &[3334, 3333, 3333]), 1);
}

#[test]
fn fee_grows_with_deviation() {
    // 2000 basis points of deviation: 20 points, two tenths
    assert_eq!(calculate_dynamic_fee(&[6000, 4000], &[5000, 5000]), 3);
    // 999 basis points: 9 points, no full tenth
    assert_eq!(calculate_dynamic_fee(&[5999, 4500], &[5500, 5000]), 1);
    // 1000 basis points: one tenth
    assert_eq!(calculate_dynamic_fee(&[5500, 4500], &[5000, 5000]), 2);
}

#[test]
fn fee_is_capped() {
    assert_eq!(calculate_dynamic_fee(&[10000, 0, 0], &[3334, 3333, 3333]), MAX_FEE);
    assert_eq!(calculate_dynamic_fee(&[u64::MAX, 0], &[0, u64::MAX]), MAX_FEE);
}

#[test]
fn fee_monotonic_on_examples() {
    let target = [5000u64, 5000];
    let mut last = 0;
    for shift in [0u64, 500, 1000, 1500, 2000, 3000, 5000] {
        let fee = calculate_dynamic_fee(&[5000 + shift, 5000 - shift], &target);
        assert!(fee >= last);
        assert!((1..=5).contains(&fee));
        last = fee;
    }
}

#[test]
fn fee_uses_pairs_both_lists_hold() {
    assert_eq!(calculate_dynamic_fee(&[1000], &[0, 10000]), 2);
}

#[test]
fn quadratic_root_of_reference_swap() {
    // D = 2000, new input reserve 1100, A = 100: c = 4545, b = 1,
    // isqrt(18181) = 134, (1 - 134) / 2 truncates to -66
    assert_eq!(calculate_new_reserve_out(2000, 1100, 100), Some(-66));
}

#[test]
fn quadratic_root_with_zero_divisor() {
    assert_eq!(calculate_new_reserve_out(2000, 0, 100), None);
    assert_eq!(calculate_new_reserve_out(2000, 1100, 0), None);
}

#[test]
fn reference_swap_is_refused() {
    assert_eq!(calculate_output_amount(100, 1000, 1000, 1, 100), None);
}

#[test]
fn swap_refused_on_zero_reserve() {
    assert_eq!(calculate_output_amount(100, 0, 1000, 1, 100), None);
    assert_eq!(calculate_output_amount(100, 1000, 0, 1, 100), None);
}

#[test]
fn swap_round_trip_gives_nothing_back() {
    for fee in [0u64, 1, 5] {
        let first = calculate_output_amount(500, 2000, 3000, fee, 50);
        if let Some(y) = first {
            let back = calculate_output_amount(y, 3000 - y, 2500, fee, 50);
            if let Some(z) = back {
                assert!(z <= 500);
                if fee > 0 {
                    assert!(z < 500);
                }
            }
        }
    }
}

#[test]
fn position_bounds_around_center() {
    assert_eq!(calculate_position_bounds(1000, 2), (990, 1010));
    assert_eq!(calculate_position_bounds(1000, 0), (1000, 1000));
}

#[test]
fn position_bounds_floor_at_zero() {
    assert_eq!(calculate_position_bounds(10, 5), (0, 35));
}
