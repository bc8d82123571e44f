//! Fixed-point models of the pool: weights, fees, the StableSwap invariant,
//! swap output and position bounds.
use vstd::arithmetic::power::{lemma_pow_increases, pow};
use vstd::prelude::*;

verus! {

/// Basis points in a whole (100%).
pub const BASIS_POINTS: u64 = 10000;

/// Base swap fee, in parts per 1000 (0.1%).
pub const BASE_FEE: u64 = 1;

/// Largest swap fee, in parts per 1000 (0.5%).
pub const MAX_FEE: u64 = 5;

/// Fee added per ten percentage points of weight deviation.
pub const FEE_MULTIPLIER: u64 = 1;

/// Fees are expressed as x / FEE_DENOMINATOR.
pub const FEE_DENOMINATOR: u64 = 1000;

/// Lower edge of the reference price band (0.995).
pub const MIN_PRICE: u64 = 995;

/// Upper edge of the reference price band (1.005).
pub const MAX_PRICE: u64 = 1005;

/// Prices are expressed as x / PRICE_DENOMINATOR.
pub const PRICE_DENOMINATOR: u64 = 1000;

/// One concentration step of a position, in price units (0.005).
pub const PRICE_INCREMENT: u64 = 5;

/// Sum of the first `k` entries of `s`.
pub open spec fn prefix_sum(s: Seq<u64>, k: int) -> int
    decreases k,
{
    if k <= 0 {
        0
    } else {
        prefix_sum(s, k - 1) + s[k - 1]
    }
}

/// Sum of all entries of `s`.
pub open spec fn sum_of(s: Seq<u64>) -> int {
    prefix_sum(s, s.len() as int)
}

/// Share of `reserve` in `total`, in basis points, rounded down; zero for an empty pool.
pub open spec fn weight_of(reserve: int, total: int) -> int {
    if total == 0 {
        0
    } else {
        reserve * BASIS_POINTS / total
    }
}

/// Current weight of each reserve, in basis points.
pub open spec fn weights_of(reserves: Seq<u64>) -> Seq<u64> {
    Seq::new(reserves.len(), |i: int| weight_of(reserves[i] as int, sum_of(reserves)) as u64)
}

/// Absolute difference of two integers.
pub open spec fn abs_diff(a: int, b: int) -> int {
    if a >= b {
        a - b
    } else {
        b - a
    }
}

/// Summed absolute deviation of the first `k` pairs of `current` and `target`.
pub open spec fn deviation_prefix(current: Seq<u64>, target: Seq<u64>, k: int) -> int
    decreases k,
{
    if k <= 0 {
        0
    } else {
        deviation_prefix(current, target, k - 1) + abs_diff(
            current[k - 1] as int,
            target[k - 1] as int,
        )
    }
}

/// Summed absolute deviation of `current` from `target`, over the pairs both hold.
pub open spec fn total_deviation(current: Seq<u64>, target: Seq<u64>) -> int {
    let k = if current.len() <= target.len() {
        current.len()
    } else {
        target.len()
    };
    deviation_prefix(current, target, k as int)
}

/// Fee, in parts per 1000, for a total deviation given in basis points.
pub open spec fn fee_for_deviation(deviation: int) -> int {
    let fee = BASE_FEE + (deviation / 100) * FEE_MULTIPLIER / 10;
    if fee < MAX_FEE {
        fee
    } else {
        MAX_FEE as int
    }
}

/// Dynamic swap fee for pool weights `current` against `target`.
pub open spec fn dynamic_fee(current: Seq<u64>, target: Seq<u64>) -> int {
    fee_for_deviation(total_deviation(current, target))
}

proof fn lemma_prefix_sum_bounds(s: Seq<u64>, k: int)
    requires
        0 <= k <= s.len(),
    ensures
        0 <= prefix_sum(s, k) <= k * u64::MAX,
        forall|j: int| 0 <= j < k ==> s[j] <= prefix_sum(s, k),
    decreases k,
{
    if k > 0 {
        lemma_prefix_sum_bounds(s, k - 1);
    }
}

proof fn lemma_deviation_prefix_bounds(current: Seq<u64>, target: Seq<u64>, k: int)
    requires
        0 <= k <= current.len(),
        k <= target.len(),
    ensures
        0 <= deviation_prefix(current, target, k) <= k * u64::MAX,
    decreases k,
{
    if k > 0 {
        lemma_deviation_prefix_bounds(current, target, k - 1);
    }
}

/// Sum of `values`, which cannot overflow in 128 bits.
pub(crate) fn sum_u128(values: &[u64]) -> (r: u128)
    ensures
        r == sum_of(values@),
{
    let mut sum: u128 = 0;
    let mut i: usize = 0;
    while i < values.len()
        invariant
            i <= values.len(),
            sum == prefix_sum(values@, i as int),
            sum <= i * u64::MAX,
        decreases values.len() - i,
    {
        assert((i + 1) * u64::MAX <= u128::MAX) by (nonlinear_arith)
            requires
                i < usize::MAX,
        ;
        sum = sum + values[i] as u128;
        i = i + 1;
    }
    sum
}

/// Current weights of the reserves, in basis points, each rounded down.
///
/// When the reserves sum to zero every weight is zero.
pub fn calculate_weights(reserves: &[u64]) -> (weights: Vec<u64>)
    ensures
        weights@ == weights_of(reserves@),
{
    let total = sum_u128(reserves);
    proof {
        lemma_prefix_sum_bounds(reserves@, reserves@.len() as int);
    }
    let mut weights: Vec<u64> = Vec::new();
    let mut i: usize = 0;
    while i < reserves.len()
        invariant
            i <= reserves.len(),
            total == sum_of(reserves@),
            forall|j: int| 0 <= j < reserves@.len() ==> reserves@[j] <= total,
            weights@.len() == i,
            forall|j: int| 0 <= j < i ==> weights@[j] == weights_of(reserves@)[j],
        decreases reserves.len() - i,
    {
        let w: u64 = if total == 0 {
            0
        } else {
            let reserve = reserves[i] as u128;
            assert((reserve as int) * 10000 / (total as int) <= 10000) by (nonlinear_arith)
                requires
                    reserve <= total,
                    total > 0,
            ;
            ((reserve * 10000) / total) as u64
        };
        weights.push(w);
        i = i + 1;
    }
    weights
}

proof fn lemma_weight_rounding(reserve: int, total: int)
    requires
        0 <= reserve <= total,
        total > 0,
    ensures
        0 <= weight_of(reserve, total) <= BASIS_POINTS,
        total * weight_of(reserve, total) <= BASIS_POINTS * reserve,
        total * weight_of(reserve, total) > BASIS_POINTS * reserve - total,
{
    let a = reserve * BASIS_POINTS;
    let q = a / total;
    assert(total * q <= a && total * q > a - total && 0 <= q <= BASIS_POINTS) by (nonlinear_arith)
        requires
            a == reserve * 10000,
            q == a / total,
            0 <= reserve <= total,
            total > 0,
    ;
}

proof fn lemma_weights_prefix(reserves: Seq<u64>, k: int)
    requires
        0 <= k <= reserves.len(),
        sum_of(reserves) > 0,
    ensures
        sum_of(reserves) * prefix_sum(weights_of(reserves), k) <= BASIS_POINTS * prefix_sum(
            reserves,
            k,
        ),
        sum_of(reserves) * prefix_sum(weights_of(reserves), k) >= BASIS_POINTS * prefix_sum(
            reserves,
            k,
        ) - k * (sum_of(reserves) - 1),
    decreases k,
{
    if k > 0 {
        let t = sum_of(reserves);
        let w = weights_of(reserves);
        lemma_weights_prefix(reserves, k - 1);
        lemma_prefix_sum_bounds(reserves, reserves.len() as int);
        lemma_weight_rounding(reserves[k - 1] as int, t);
        assert(w[k - 1] == weight_of(reserves[k - 1] as int, t));
        let pw = prefix_sum(w, k - 1);
        let ps = prefix_sum(reserves, k - 1);
        let wk = w[k - 1] as int;
        let sk = reserves[k - 1] as int;
        assert(t * (pw + wk) == t * pw + t * wk) by (nonlinear_arith);
        assert(k * (t - 1) == (k - 1) * (t - 1) + (t - 1)) by (nonlinear_arith);
    }
}

/// Rounding each weight down loses less than one basis point per reserve: the
/// weights of a pool holding anything sum to at most `BASIS_POINTS` and at least
/// `BASIS_POINTS - (n - 1)` for `n` reserves; a pool holding nothing has every
/// weight zero.
pub proof fn lemma_weights_sum(reserves: Seq<u64>)
    ensures
        sum_of(reserves) == 0 ==> forall|i: int|
            0 <= i < reserves.len() ==> #[trigger] weights_of(reserves)[i] == 0,
        sum_of(reserves) > 0 ==> BASIS_POINTS - (reserves.len() - 1) <= sum_of(
            weights_of(reserves),
        ) <= BASIS_POINTS,
{
    let t = sum_of(reserves);
    let n = reserves.len() as int;
    if t > 0 {
        lemma_weights_prefix(reserves, n);
        let ws = sum_of(weights_of(reserves));
        assert(n >= 1);
        let e = ws - 10000 + n;
        assert(t * e >= n) by (nonlinear_arith)
            requires
                e == ws - 10000 + n,
                t * ws >= 10000 * t - n * (t - 1),
        ;
        assert(e >= 1 && ws <= 10000) by (nonlinear_arith)
            requires
                t > 0,
                n >= 1,
                t * e >= n,
                t * ws <= 10000 * t,
        ;
    }
}

/// Dynamic swap fee, in parts per 1000: `BASE_FEE` plus `FEE_MULTIPLIER` per ten
/// percentage points of summed absolute deviation, capped at `MAX_FEE`.
///
/// Both weight lists are in basis points; pairs are taken while both lists last.
pub fn calculate_dynamic_fee(current_weights: &[u64], target_weights: &[u64]) -> (fee: u64)
    ensures
        fee == dynamic_fee(current_weights@, target_weights@),
{
    let k: usize = if current_weights.len() <= target_weights.len() {
        current_weights.len()
    } else {
        target_weights.len()
    };
    let mut total_deviation: u128 = 0;
    let mut i: usize = 0;
    while i < k
        invariant
            i <= k,
            k <= current_weights@.len(),
            k <= target_weights@.len(),
            total_deviation == deviation_prefix(current_weights@, target_weights@, i as int),
            total_deviation <= i * u64::MAX,
        decreases k - i,
    {
        assert((i + 1) * u64::MAX <= u128::MAX) by (nonlinear_arith)
            requires
                i < usize::MAX,
        ;
        let current = current_weights[i];
        let target = target_weights[i];
        let deviation = if current > target {
            current - target
        } else {
            target - current
        };
        total_deviation = total_deviation + deviation as u128;
        i = i + 1;
    }
    let deviation_percentage = total_deviation / 100;
    let fee = BASE_FEE as u128 + (deviation_percentage * FEE_MULTIPLIER as u128) / 10;
    if fee < MAX_FEE as u128 {
        fee as u64
    } else {
        MAX_FEE
    }
}

/// The dynamic fee never falls as the total deviation from the target weights
/// grows, and always lies between `BASE_FEE` and `MAX_FEE`.
pub proof fn lemma_fee_monotonic(
    current_a: Seq<u64>,
    target_a: Seq<u64>,
    current_b: Seq<u64>,
    target_b: Seq<u64>,
)
    requires
        total_deviation(current_a, target_a) <= total_deviation(current_b, target_b),
    ensures
        dynamic_fee(current_a, target_a) <= dynamic_fee(current_b, target_b),
        BASE_FEE <= dynamic_fee(current_a, target_a) <= MAX_FEE,
        BASE_FEE <= dynamic_fee(current_b, target_b) <= MAX_FEE,
{
    let ka = if current_a.len() <= target_a.len() { current_a.len() } else { target_a.len() };
    lemma_deviation_prefix_bounds(current_a, target_a, ka as int);
    let da = total_deviation(current_a, target_a);
    let db = total_deviation(current_b, target_b);
    assert(da / 100 <= db / 100) by (nonlinear_arith)
        requires
            0 <= da <= db,
    ;
    assert(0 <= da / 100) by (nonlinear_arith)
        requires
            0 <= da,
    ;
    assert((da / 100) / 10 <= (db / 100) / 10) by (nonlinear_arith)
        requires
            0 <= da / 100 <= db / 100,
    ;
    assert(0 <= (da / 100) / 10) by (nonlinear_arith)
        requires
            0 <= da / 100,
    ;
}

/// Newton steps the invariant solver takes at most.
pub const MAX_NEWTON_ROUNDS: u64 = 255;

/// Whether `x` fits the 128-bit intermediates of the solver.
pub open spec fn fits(x: int) -> bool {
    0 <= x <= u128::MAX
}

/// A 128-bit optional value read as an optional integer.
pub open spec fn lift(o: Option<u128>) -> Option<int> {
    match o {
        Some(v) => Some(v as int),
        None => None,
    }
}

/// `D_P` after folding the first `k` reserves into `d`: each reserve `r` sets
/// `D_P = D_P * D / (r * n)`; a product that leaves 128 bits is a failure.
pub open spec fn d_p_prefix(reserves: Seq<u64>, k: int, d: int, n: int) -> Option<int>
    decreases k,
{
    if k <= 0 {
        Some(d)
    } else {
        match d_p_prefix(reserves, k - 1, d, n) {
            Some(dp) => if fits(dp * d) {
                Some(dp * d / (reserves[k - 1] * n))
            } else {
                None
            },
            None => None,
        }
    }
}

/// One Newton step from `d`:
/// `(Ann * S + D_P * n) * D / ((Ann - 1) * D + (n + 1) * D_P)`,
/// a failure when an intermediate leaves 128 bits or the denominator is zero.
pub open spec fn newton_step(reserves: Seq<u64>, ann: int, sum: int, d: int) -> Option<int> {
    let n = reserves.len() as int;
    match d_p_prefix(reserves, n, d, n) {
        None => None,
        Some(dp) => {
            let num = (ann * sum + dp * n) * d;
            let den = (ann - 1) * d + (n + 1) * dp;
            if fits(ann * sum) && fits(dp * n) && fits(ann * sum + dp * n) && fits(num) && fits(
                (ann - 1) * d,
            ) && fits((n + 1) * dp) && fits(den) && den > 0 {
                Some(num / den)
            } else {
                None
            }
        },
    }
}

/// Newton iteration from `d` for at most `rounds` steps: the first step that moves
/// by at most one gives the result; a failed step, or no such step, is a failure.
pub open spec fn newton_from(reserves: Seq<u64>, ann: int, sum: int, d: int, rounds: nat) -> Option<
    int,
>
    decreases rounds,
{
    if rounds == 0 {
        None
    } else {
        match newton_step(reserves, ann, sum, d) {
            None => None,
            Some(next) => if abs_diff(next, d) <= 1 {
                Some(next)
            } else {
                newton_from(reserves, ann, sum, next, (rounds - 1) as nat)
            },
        }
    }
}

/// `A * n^n` for `n` reserves.
pub open spec fn ann_of(amplification: int, n: int) -> int {
    amplification * pow(n, n as nat)
}

/// Whether some reserve is zero.
pub open spec fn has_zero(reserves: Seq<u64>) -> bool {
    exists|i: int| 0 <= i < reserves.len() && reserves[i] == 0
}

/// StableSwap invariant D of `reserves` under `amplification`: Newton iteration
/// from the sum of the reserves, at most `MAX_NEWTON_ROUNDS` steps.
///
/// No reserves, a zero reserve, a zero amplification, an intermediate beyond
/// 128 bits, no convergence, or a D beyond 64 bits: no invariant.
pub open spec fn invariant_of(reserves: Seq<u64>, amplification: u64) -> Option<u64> {
    let n = reserves.len() as int;
    let ann = ann_of(amplification as int, n);
    if n == 0 || has_zero(reserves) || amplification == 0 || !fits(ann) {
        None
    } else {
        narrow(
            newton_from(
                reserves,
                ann,
                sum_of(reserves),
                sum_of(reserves),
                MAX_NEWTON_ROUNDS as nat,
            ),
        )
    }
}

/// An optional integer kept only when it fits 64 bits.
pub open spec fn narrow(o: Option<int>) -> Option<u64> {
    match o {
        Some(v) => if 0 <= v <= u64::MAX {
            Some(v as u64)
        } else {
            None
        },
        None => None,
    }
}

proof fn lemma_d_p_prefix_failed(reserves: Seq<u64>, k: int, j: int, d: int, n: int)
    requires
        0 <= k <= j,
        d_p_prefix(reserves, k, d, n) is None,
    ensures
        d_p_prefix(reserves, j, d, n) is None,
    decreases j - k,
{
    if j > k {
        lemma_d_p_prefix_failed(reserves, k, j - 1, d, n);
    }
}

/// `D_P` for the current `d`.
fn d_p_of(reserves: &[u64], d: u128, n: u128) -> (r: Option<u128>)
    requires
        n == reserves@.len(),
        !has_zero(reserves@),
    ensures
        lift(r) == d_p_prefix(reserves@, n as int, d as int, n as int),
{
    let mut dp: u128 = d;
    let mut i: usize = 0;
    while i < reserves.len()
        invariant
            i <= reserves@.len(),
            n == reserves@.len(),
            !has_zero(reserves@),
            d_p_prefix(reserves@, i as int, d as int, n as int) == Some(dp as int),
        decreases reserves.len() - i,
    {
        let reserve = reserves[i];
        assert(reserve > 0);
        let product = match dp.checked_mul(d) {
            Some(p) => p,
            None => {
                proof {
                    lemma_d_p_prefix_failed(reserves@, i + 1, n as int, d as int, n as int);
                }
                return None;
            },
        };
        assert((reserve as int) * (n as int) <= u128::MAX && (reserve as int) * (n as int) > 0)
            by (nonlinear_arith)
            requires
                0 < reserve <= u64::MAX,
                0 < n <= usize::MAX,
                usize::MAX <= u64::MAX,
        ;
        dp = product / (reserve as u128 * n);
        i = i + 1;
    }
    Some(dp)
}

/// One Newton step of the solver.
fn newton_step_exec(reserves: &[u64], ann: u128, sum: u128, n: u128, d: u128) -> (r: Option<
    u128,
>)
    requires
        n == reserves@.len(),
        n <= u64::MAX,
        !has_zero(reserves@),
        ann >= 1,
    ensures
        lift(r) == newton_step(reserves@, ann as int, sum as int, d as int),
{
    let dp = match d_p_of(reserves, d, n) {
        Some(v) => v,
        None => return None,
    };
    let ann_sum = match ann.checked_mul(sum) {
        Some(v) => v,
        None => return None,
    };
    let dp_n = match dp.checked_mul(n) {
        Some(v) => v,
        None => return None,
    };
    let head = match ann_sum.checked_add(dp_n) {
        Some(v) => v,
        None => return None,
    };
    let num = match head.checked_mul(d) {
        Some(v) => v,
        None => return None,
    };
    let left = match (ann - 1).checked_mul(d) {
        Some(v) => v,
        None => return None,
    };
    let right = match (n + 1).checked_mul(dp) {
        Some(v) => v,
        None => return None,
    };
    let den = match left.checked_add(right) {
        Some(v) => v,
        None => return None,
    };
    if den == 0 {
        return None;
    }
    Some(num / den)
}

/// StableSwap invariant D of `amounts` under `amplification`, by Newton iteration
/// from the sum of the amounts.
///
/// Fails on no amounts, a zero amount or a zero amplification (the pool cannot be
/// priced), on an intermediate beyond 128 bits, when no step within
/// `MAX_NEWTON_ROUNDS` moves D by at most one, and on a D beyond 64 bits.
pub fn calculate_invariant(amounts: &[u64], amplification: u64) -> (r: Option<u64>)
    ensures
        r == invariant_of(amounts@, amplification),
{
    if amounts.len() == 0 {
        return None;
    }
    let mut i: usize = 0;
    while i < amounts.len()
        invariant
            i <= amounts@.len(),
            forall|j: int| 0 <= j < i ==> amounts@[j] != 0,
        decreases amounts.len() - i,
    {
        if amounts[i] == 0 {
            assert(has_zero(amounts@));
            return None;
        }
        i = i + 1;
    }
    assert(!has_zero(amounts@));
    if amplification == 0 {
        return None;
    }
    let n: u128 = amounts.len() as u128;
    let ghost n_nat: nat = amounts@.len();
    // n^n, by repeated multiplication
    let mut n_pow: u128 = 1;
    let mut k: usize = 0;
    proof {
        reveal(pow);
    }
    while k < amounts.len()
        invariant
            k <= amounts@.len(),
            n == amounts@.len(),
            n_nat == amounts@.len(),
            n_nat > 0,
            amplification >= 1,
            n_pow == pow(n as int, k as nat),
        decreases amounts.len() - k,
    {
        proof {
            reveal(pow);
        }
        assert(pow(n as int, (k + 1) as nat) == n * pow(n as int, k as nat));
        n_pow = match n_pow.checked_mul(n) {
            Some(v) => v,
            None => {
                proof {
                    lemma_pow_increases(n_nat, (k + 1) as nat, n_nat);
                    assert(ann_of(amplification as int, n as int) >= pow(n as int, n_nat))
                        by (nonlinear_arith)
                        requires
                            amplification >= 1,
                            pow(n as int, n_nat) >= 0,
                            ann_of(amplification as int, n as int) == amplification * pow(
                                n as int,
                                n_nat,
                            ),
                    ;
                }
                return None;
            },
        };
        k = k + 1;
    }
    assert(n_pow == pow(n as int, n_nat));
    proof {
        lemma_pow_increases(n_nat, 0, n_nat);
        reveal(pow);
    }
    assert(n_pow >= 1);
    let ann = match (amplification as u128).checked_mul(n_pow) {
        Some(v) => v,
        None => return None,
    };
    assert(ann >= 1) by (nonlinear_arith)
        requires
            ann == amplification * n_pow,
            amplification >= 1,
            n_pow >= 1,
    ;
    assert(ann as int == ann_of(amplification as int, n as int));
    let sum = sum_u128(amounts);
    let ghost target = newton_from(
        amounts@,
        ann as int,
        sum as int,
        sum as int,
        MAX_NEWTON_ROUNDS as nat,
    );
    assert(invariant_of(amounts@, amplification) == narrow(target));
    let mut d: u128 = sum;
    let mut round: u64 = 0;
    while round < MAX_NEWTON_ROUNDS
        invariant
            round <= MAX_NEWTON_ROUNDS,
            n == amounts@.len(),
            !has_zero(amounts@),
            ann >= 1,
            n <= u64::MAX,
            newton_from(
                amounts@,
                ann as int,
                sum as int,
                d as int,
                (MAX_NEWTON_ROUNDS - round) as nat,
            )
                == target,
            invariant_of(amounts@, amplification) == narrow(target),
        decreases MAX_NEWTON_ROUNDS - round,
    {
        let next = match newton_step_exec(amounts, ann, sum, n, d) {
            Some(v) => v,
            None => return None,
        };
        let moved = if next > d {
            next - d
        } else {
            d - next
        };
        if moved <= 1 {
            if next > u64::MAX as u128 {
                return None;
            }
            return Some(next as u64);
        }
        d = next;
        round = round + 1;
    }
    None
}

proof fn lemma_prefix_sum_equal(s: Seq<u64>, k: int, r: u64)
    requires
        0 <= k <= s.len(),
        forall|i: int| 0 <= i < s.len() ==> s[i] == r,
    ensures
        prefix_sum(s, k) == k * r,
    decreases k,
{
    if k > 0 {
        lemma_prefix_sum_equal(s, k - 1, r);
        assert(s[k - 1] == r);
        assert(prefix_sum(s, k) == prefix_sum(s, k - 1) + s[k - 1]);
        assert(k * r == (k - 1) * r + r) by (nonlinear_arith);
    } else {
        assert(k * r == 0) by (nonlinear_arith)
            requires
                k == 0,
        ;
    }
}

proof fn lemma_d_p_prefix_equal(s: Seq<u64>, k: int, r: u64, n: int)
    requires
        0 <= k <= s.len(),
        forall|i: int| 0 <= i < s.len() ==> s[i] == r,
        r > 0,
        n > 0,
        fits((n * r) * (n * r)),
    ensures
        d_p_prefix(s, k, n * r, n) == Some(n * r),
    decreases k,
{
    if k > 0 {
        lemma_d_p_prefix_equal(s, k - 1, r, n);
        let d = n * r;
        assert(s[k - 1] == r);
        assert(d > 0) by (nonlinear_arith)
            requires
                d == n * r,
                n > 0,
                r > 0,
        ;
        assert(d * d / (r * n) == d) by (nonlinear_arith)
            requires
                d == n * r,
                d > 0,
        ;
    }
}

/// For `n` equal reserves `r`, the invariant is exactly `n * r` whatever the
/// amplification: the first Newton step from the sum stays put. This holds
/// whenever the solver's intermediates fit 128 bits and `n * r` fits 64 bits.
pub proof fn lemma_invariant_of_equal_reserves(reserves: Seq<u64>, amplification: u64)
    requires
        reserves.len() >= 1,
        forall|i: int| 0 <= i < reserves.len() ==> #[trigger] reserves[i] == reserves[0],
        reserves[0] > 0,
        amplification >= 1,
        (ann_of(amplification as int, reserves.len() as int) + reserves.len()) * (reserves.len()
            * reserves[0]) * (reserves.len() * reserves[0]) <= u128::MAX,
        reserves.len() * reserves[0] <= u64::MAX,
    ensures
        invariant_of(reserves, amplification) == Some((reserves.len() * reserves[0]) as u64),
{
    let n = reserves.len() as int;
    let r = reserves[0];
    let d = n * r;
    let ann = ann_of(amplification as int, n);
    reveal(pow);
    lemma_pow_increases(n as nat, 0, n as nat);
    assert(ann >= 1) by (nonlinear_arith)
        requires
            ann == amplification * pow(n, n as nat),
            amplification >= 1,
            pow(n, n as nat) >= 1,
    ;
    assert(d >= 1) by (nonlinear_arith)
        requires
            d == n * r,
            n >= 1,
            r >= 1,
    ;
    let big = (ann + n) * d * d;
    assert(d * d <= big && ann <= big && ann * d <= big && d * n <= big && ann * d + d * n <= big
        && (ann * d + d * n) * d == big && (ann - 1) * d <= big && (n + 1) * d <= big && (ann - 1)
        * d + (n + 1) * d == (ann + n) * d && (ann + n) * d <= big && big / ((ann + n) * d) == d)
        by (nonlinear_arith)
        requires
            big == (ann + n) * d * d,
            ann >= 1,
            n >= 1,
            d >= 1,
    ;
    lemma_prefix_sum_equal(reserves, n, r);
    lemma_d_p_prefix_equal(reserves, n, r, n);
    assert(newton_step(reserves, ann, d, d) == Some(d));
    assert(!has_zero(reserves));
}

/// Whether `s` is the integer square root of `v`: the largest `s` with `s * s <= v`.
pub open spec fn is_isqrt(v: int, s: int) -> bool {
    0 <= s && s * s <= v < (s + 1) * (s + 1)
}

/// Integer square root of `v` (rounded down).
pub open spec fn isqrt(v: int) -> int {
    choose|s: int| is_isqrt(v, s)
}

proof fn lemma_isqrt_exists(v: int)
    requires
        v >= 0,
    ensures
        is_isqrt(v, isqrt(v)),
    decreases v,
{
    if v == 0 {
        assert(is_isqrt(0, 0));
    } else {
        lemma_isqrt_exists(v - 1);
        let t = isqrt(v - 1);
        if (t + 1) * (t + 1) <= v {
            assert(is_isqrt(v, t + 1)) by (nonlinear_arith)
                requires
                    t >= 0,
                    (t + 1) * (t + 1) <= v,
                    v - 1 < (t + 1) * (t + 1),
            ;
        } else {
            assert(is_isqrt(v, t));
        }
    }
}

proof fn lemma_isqrt_unique(v: int, s: int)
    requires
        v >= 0,
        is_isqrt(v, s),
    ensures
        isqrt(v) == s,
{
    lemma_isqrt_exists(v);
    let t = isqrt(v);
    assert(t == s) by (nonlinear_arith)
        requires
            is_isqrt(v, t),
            is_isqrt(v, s),
    {
        if t < s {
            assert((t + 1) * (t + 1) <= s * s) by (nonlinear_arith)
                requires
                    0 <= t + 1 <= s,
            ;
        } else if s < t {
            assert((s + 1) * (s + 1) <= t * t) by (nonlinear_arith)
                requires
                    0 <= s + 1 <= t,
            ;
        }
    }
}

/// Integer square root, by bisection over `[0, 2^64)`.
fn integer_sqrt(v: u128) -> (s: u128)
    ensures
        s == isqrt(v as int),
        s < 0x1_0000_0000_0000_0000,
{
    let mut lo: u128 = 0;
    let mut hi: u128 = 0x1_0000_0000_0000_0000;
    assert(v < hi * hi) by (nonlinear_arith)
        requires
            hi == 0x1_0000_0000_0000_0000u128,
            v <= u128::MAX,
    ;
    while hi - lo > 1
        invariant
            lo < hi <= 0x1_0000_0000_0000_0000,
            lo * lo <= v,
            v < hi * hi,
        decreases hi - lo,
    {
        let mid = lo + (hi - lo) / 2;
        assert(mid * mid <= u128::MAX) by (nonlinear_arith)
            requires
                mid < 0x1_0000_0000_0000_0000,
        ;
        if mid * mid <= v {
            lo = mid;
        } else {
            hi = mid;
        }
    }
    assert(is_isqrt(v as int, lo as int));
    proof {
        lemma_isqrt_unique(v as int, lo as int);
    }
    lo
}

/// A 128-bit signed optional value read as an optional integer.
pub open spec fn lift_signed(o: Option<i128>) -> Option<int> {
    match o {
        Some(v) => Some(v as int),
        None => None,
    }
}

/// New output reserve from the two-asset quadratic `y^2 + b*y - c = 0`, with
/// `Ann = 4A`, `c = D^3 / (4 * Ann * x')` and `b = Ann * D / (Ann * x')`:
/// `y = (b - isqrt(b^2 + 4c)) / 2`, truncated toward zero. A failure when an
/// intermediate leaves 128 bits or a divisor is zero.
pub open spec fn quadratic_root(d: int, new_reserve_in: int, amplification: int) -> Option<int> {
    let ann = amplification * 4;
    let c_den = 4 * ann * new_reserve_in;
    let b_den = ann * new_reserve_in;
    if fits(d * d * d) && fits(c_den) && c_den > 0 && fits(ann * d) && fits(b_den) && b_den > 0 {
        let c = d * d * d / c_den;
        let b = ann * d / b_den;
        let disc = b * b + 4 * c;
        if fits(b * b) && fits(4 * c) && fits(disc) {
            let s = isqrt(disc);
            Some(
                if b >= s {
                    (b - s) / 2
                } else {
                    -((s - b) / 2)
                },
            )
        } else {
            None
        }
    } else {
        None
    }
}

/// Output of a swap of `x_amount` into a two-asset curve holding `x_reserve` and
/// `y_reserve`: the fee (parts per 1000) is taken from the input, the new output
/// reserve comes from `quadratic_root`, and the trade is refused when the output
/// would be negative or drain the whole reserve.
pub open spec fn output_amount(
    x_amount: u64,
    x_reserve: u64,
    y_reserve: u64,
    fee: u64,
    amplification: u64,
) -> Option<u64> {
    if x_reserve == 0 || y_reserve == 0 {
        None
    } else {
        match invariant_of(seq![x_reserve, y_reserve], amplification) {
            None => None,
            Some(d) => {
                let fee_amount = x_amount * fee / FEE_DENOMINATOR as int;
                if fee_amount > x_amount {
                    None
                } else {
                    let new_reserve_in = x_reserve + (x_amount - fee_amount);
                    match quadratic_root(d as int, new_reserve_in, amplification as int) {
                        None => None,
                        Some(new_reserve_out) => {
                            let out = y_reserve - new_reserve_out;
                            if out < 0 || out >= y_reserve {
                                None
                            } else {
                                Some(out as u64)
                            }
                        },
                    }
                }
            },
        }
    }
}

/// New output reserve of a two-asset swap: `quadratic_root` of the invariant `d`,
/// the new input reserve and the amplification.
pub fn calculate_new_reserve_out(d: u64, new_reserve_in: u128, amplification: u64) -> (r: Option<
    i128,
>)
    ensures
        lift_signed(r) == quadratic_root(d as int, new_reserve_in as int, amplification as int),
{
    let ann: u128 = amplification as u128 * 4;
    let d_wide = d as u128;
    assert(d_wide * d_wide <= u128::MAX) by (nonlinear_arith)
        requires
            d_wide <= u64::MAX,
    ;
    let d_cubed = match (d_wide * d_wide).checked_mul(d_wide) {
        Some(v) => v,
        None => return None,
    };
    let c_den = match (4 * ann).checked_mul(new_reserve_in) {
        Some(v) => v,
        None => return None,
    };
    let ann_d = match ann.checked_mul(d_wide) {
        Some(v) => v,
        None => return None,
    };
    let b_den = match ann.checked_mul(new_reserve_in) {
        Some(v) => v,
        None => return None,
    };
    if c_den == 0 || b_den == 0 {
        return None;
    }
    let c = d_cubed / c_den;
    let b = ann_d / b_den;
    let b_sq = match b.checked_mul(b) {
        Some(v) => v,
        None => return None,
    };
    let four_c = match c.checked_mul(4) {
        Some(v) => v,
        None => return None,
    };
    let disc = match b_sq.checked_add(four_c) {
        Some(v) => v,
        None => return None,
    };
    let s = integer_sqrt(disc);
    // (b - s) / 2, truncated toward zero
    if b >= s {
        assert((b - s) / 2 <= i128::MAX);
        Some(((b - s) / 2) as i128)
    } else {
        Some(-(((s - b) / 2) as i128))
    }
}

/// Output amount of a swap of `x_amount` against reserves `x_reserve` (in) and
/// `y_reserve` (out), with `fee` in parts per 1000.
///
/// Fails on a zero reserve, when the invariant or the quadratic cannot be
/// computed, when the fee exceeds the input, and when the output would be
/// negative or at least the whole output reserve.
pub fn calculate_output_amount(
    x_amount: u64,
    x_reserve: u64,
    y_reserve: u64,
    fee: u64,
    amplification: u64,
) -> (r: Option<u64>)
    ensures
        r == output_amount(x_amount, x_reserve, y_reserve, fee, amplification),
{
    if x_reserve == 0 || y_reserve == 0 {
        return None;
    }
    let amounts = vec![x_reserve, y_reserve];
    assert(amounts@ == seq![x_reserve, y_reserve]);
    let d = match calculate_invariant(amounts.as_slice(), amplification) {
        Some(v) => v,
        None => return None,
    };
    assert((x_amount as int) * (fee as int) <= u128::MAX) by (nonlinear_arith)
        requires
            x_amount <= u64::MAX,
            fee <= u64::MAX,
    ;
    let fee_amount = (x_amount as u128 * fee as u128) / FEE_DENOMINATOR as u128;
    if fee_amount > x_amount as u128 {
        return None;
    }
    let new_reserve_in = x_reserve as u128 + (x_amount as u128 - fee_amount);
    let new_reserve_out = match calculate_new_reserve_out(d, new_reserve_in, amplification) {
        Some(v) => v,
        None => return None,
    };
    if new_reserve_out < 0 {
        // the output would exceed the whole reserve
        return None;
    }
    let new_reserve_out = new_reserve_out as u128;
    if new_reserve_out > y_reserve as u128 {
        return None;
    }
    let amount_out = y_reserve as u128 - new_reserve_out;
    if amount_out >= y_reserve as u128 {
        return None;
    }
    Some(amount_out as u64)
}

/// The quadratic's root is never positive: `isqrt(b^2 + 4c)` is at least `b`.
pub proof fn lemma_quadratic_root_not_positive(d: int, new_reserve_in: int, amplification: int)
    requires
        d >= 0,
        new_reserve_in >= 0,
        amplification >= 0,
    ensures
        quadratic_root(d, new_reserve_in, amplification) matches Some(y) ==> y <= 0,
{
    let ann = amplification * 4;
    let c_den = 4 * ann * new_reserve_in;
    let b_den = ann * new_reserve_in;
    if fits(d * d * d) && fits(c_den) && c_den > 0 && fits(ann * d) && fits(b_den) && b_den > 0 {
        let c = d * d * d / c_den;
        let b = ann * d / b_den;
        let disc = b * b + 4 * c;
        if fits(b * b) && fits(4 * c) && fits(disc) {
            assert(b >= 0 && c >= 0) by (nonlinear_arith)
                requires
                    b == ann * d / b_den,
                    c == d * d * d / c_den,
                    ann * d >= 0,
                    d * d * d >= 0,
                    b_den > 0,
                    c_den > 0,
            ;
            lemma_isqrt_exists(disc);
            let s = isqrt(disc);
            assert(b <= s) by (nonlinear_arith)
                requires
                    b >= 0,
                    c >= 0,
                    disc == b * b + 4 * c,
                    disc < (s + 1) * (s + 1),
                    s >= 0,
            ;
        }
    }
}

/// With the quadratic as written, every swap is refused: the new output
/// reserve is never positive, so the output would be the whole reserve or more.
pub proof fn lemma_swap_output_refused(
    x_amount: u64,
    x_reserve: u64,
    y_reserve: u64,
    fee: u64,
    amplification: u64,
)
    ensures
        output_amount(x_amount, x_reserve, y_reserve, fee, amplification) is None,
{
    if x_reserve != 0 && y_reserve != 0 {
        if let Some(d) = invariant_of(seq![x_reserve, y_reserve], amplification) {
            let fee_amount = x_amount * fee / FEE_DENOMINATOR as int;
            assert(fee_amount >= 0) by (nonlinear_arith)
                requires
                    fee_amount == x_amount * fee / 1000,
                    x_amount >= 0,
                    fee >= 0,
            ;
            if fee_amount <= x_amount {
                let new_reserve_in = x_reserve + (x_amount - fee_amount);
                lemma_quadratic_root_not_positive(
                    d as int,
                    new_reserve_in,
                    amplification as int,
                );
            }
        }
    }
}

/// What comes back from swapping `x` of one asset for the other and then the
/// output straight back, against the reserves the first swap leaves.
pub open spec fn round_trip_output(
    x: u64,
    reserve_a: u64,
    reserve_b: u64,
    fee: u64,
    amplification: u64,
) -> Option<u64> {
    match output_amount(x, reserve_a, reserve_b, fee, amplification) {
        Some(y) => if reserve_a + x <= u64::MAX {
            output_amount(y, (reserve_b - y) as u64, (reserve_a + x) as u64, fee, amplification)
        } else {
            None
        },
        None => None,
    }
}

/// Swapping `x` of one asset for the other and then the output straight back
/// never returns more than `x`, and strictly less under a positive fee.
pub proof fn lemma_swap_round_trip(
    x: u64,
    reserve_a: u64,
    reserve_b: u64,
    fee: u64,
    amplification: u64,
)
    ensures
        round_trip_output(x, reserve_a, reserve_b, fee, amplification) matches Some(z) ==> z <= x
            && (fee > 0 ==> z < x),
{
    lemma_swap_output_refused(x, reserve_a, reserve_b, fee, amplification);
}

/// Price range `(min, max)` around `center` for `concentration` steps.
pub open spec fn position_bounds(center: int, concentration: int) -> (int, int) {
    let half_range = concentration * PRICE_INCREMENT;
    (if center >= half_range { center - half_range } else { 0 }, center + half_range)
}

/// Price range of a position: `concentration` steps of 0.005 on each side of
/// `center_price`, the lower edge held at zero.
pub fn calculate_position_bounds(center_price: u64, concentration: u64) -> (r: (u64, u64))
    requires
        center_price + concentration * PRICE_INCREMENT <= u64::MAX,
    ensures
        r.0 == position_bounds(center_price as int, concentration as int).0,
        r.1 == position_bounds(center_price as int, concentration as int).1,
{
    let half_range = concentration * PRICE_INCREMENT;
    let min_price = center_price.saturating_sub(half_range);
    let max_price = center_price + half_range;
    (min_price, max_price)
}

} // verus!
