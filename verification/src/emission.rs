//! Block reward and emission for Opolys.
//!
//! There is no fixed emission schedule. Rewards emerge from chain state:
//!
//! - **Vein yield** = `1 + sqrt(ln(target / hash_int))` (in milli), where
//!   `target = 2^(64-D) - 1` and D is the difficulty in leading zero bits.
//!   The natural logarithm is computed in Q32 fixed point with integer
//!   arithmetic only, so every platform derives the same reward.
//! - **Base reward** = `base_reward / effective_difficulty`.
//! - **Refiner weight** = bonded stake (age never adds weight).
//! - **Stake coverage** = bonded stake / issued supply, in milli, capped at 1000.
//! - **Suggested fee** = an EMA of the average fee of the previous block.
use crate::constants::{CAPACITY_RATIO, MIN_DIFFICULTY, MIN_FEE};
use crate::types::FlakeAmount;
use vstd::prelude::*;

verus! {

/// 1.0 in Q32 fixed point.
pub const Q32_ONE: u128 = 4_294_967_296;

/// ln(2) in Q32 fixed point.
pub const LN_2_Q32: u128 = 2_977_044_471;

/// Number of odd-divisor terms (1, 3, ..., 39) of the logarithm series.
pub const LN_SERIES_TERMS: u128 = 20;

/// `2^e`.
pub open spec fn pow2(e: nat) -> nat
    decreases e,
{
    if e == 0 {
        1
    } else {
        2 * pow2((e - 1) as nat)
    }
}

/// The floor of the square root of `n`.
pub open spec fn floor_sqrt(n: nat) -> nat
    decreases n,
{
    if n == 0 {
        0
    } else {
        let r = floor_sqrt((n - 1) as nat);
        if (r + 1) * (r + 1) <= n {
            r + 1
        } else {
            r
        }
    }
}

/// The square root of `n`, rounded to the nearer integer (ties go down).
pub open spec fn round_sqrt(n: nat) -> nat {
    let f = floor_sqrt(n);
    if ((f + 1) * (f + 1) - n) < (n - f * f) {
        f + 1
    } else {
        f
    }
}

/// `floor_sqrt(n)` is the unique `r` with `r² ≤ n < (r+1)²`.
pub proof fn lemma_floor_sqrt(n: nat)
    ensures
        floor_sqrt(n) * floor_sqrt(n) <= n,
        n < (floor_sqrt(n) + 1) * (floor_sqrt(n) + 1),
    decreases n,
{
    if n == 0 {
        assert(floor_sqrt(0) == 0);
        assert(n < (floor_sqrt(n) + 1) * (floor_sqrt(n) + 1)) by (nonlinear_arith)
            requires
                floor_sqrt(n) == 0,
                n == 0,
        ;
    } else {
        lemma_floor_sqrt((n - 1) as nat);
        let r = floor_sqrt((n - 1) as nat);
        let f = floor_sqrt(n);
        assert(f == (if (r + 1) * (r + 1) <= n { r + 1 } else { r }));
        if (r + 1) * (r + 1) <= n {
            assert(n < (f + 1) * (f + 1)) by (nonlinear_arith)
                requires
                    n - 1 < (r + 1) * (r + 1),
                    f == r + 1,
            ;
        } else {
            assert(f * f <= n);
            assert(n < (f + 1) * (f + 1));
        }
    }
}

/// Any `r` with `r² ≤ n < (r+1)²` is `floor_sqrt(n)`.
pub proof fn lemma_floor_sqrt_unique(n: nat, r: nat)
    requires
        r * r <= n,
        n < (r + 1) * (r + 1),
    ensures
        r == floor_sqrt(n),
{
    lemma_floor_sqrt(n);
    let f = floor_sqrt(n);
    if r < f {
        assert((r + 1) * (r + 1) <= f * f) by (nonlinear_arith)
            requires
                r + 1 <= f,
        ;
    } else if r > f {
        assert((f + 1) * (f + 1) <= r * r) by (nonlinear_arith)
            requires
                f + 1 <= r,
        ;
    }
}

/// Floor of the square root, by binary search.
pub fn integer_sqrt_floor(n: u128) -> (r: u128)
    ensures
        r == floor_sqrt(n as nat),
{
    if n < 2 {
        proof {
            assert(floor_sqrt(0) == 0);
            assert(1 < (1 + 1) * (1 + 1)) by (nonlinear_arith);
            lemma_floor_sqrt_unique(1, 1);
        }
        return n;
    }
    let mut left: u128 = 1;
    let mut right: u128 = if n > 0xffff_ffff_ffff_ffff {
        0xffff_ffff_ffff_ffff
    } else {
        n
    };
    let mut result: u128 = 1;
    proof {
        assert((right + 1) * (right + 1) > n) by (nonlinear_arith)
            requires
                right == n || (right == 0xffff_ffff_ffff_ffff && n < 0x1_0000_0000_0000_0000_0000_0000_0000_0000),
        ;
    }
    while left <= right
        invariant
            2 <= n,
            1 <= left,
            right <= 0xffff_ffff_ffff_ffff,
            result * result <= n,
            (right + 1) * (right + 1) > n,
            left <= right + 1,
            result + 1 >= left,
            1 <= result,
        decreases right + 1 - left,
    {
        let mid = left + (right - left) / 2;
        assert(mid * mid <= 0xffff_ffff_ffff_ffff * 0xffff_ffff_ffff_ffff) by (nonlinear_arith)
            requires
                mid <= 0xffff_ffff_ffff_ffff,
        ;
        let square = mid * mid;
        if square <= n {
            result = mid;
            left = mid + 1;
        } else {
            right = mid - 1;
        }
    }
    proof {
        assert(result <= right) by (nonlinear_arith)
            requires
                result * result <= n,
                (right + 1) * (right + 1) > n,
                left == right + 1,
                result + 1 >= left,
        ;
        assert(result == right);
        lemma_floor_sqrt_unique(n as nat, result as nat);
    }
    result
}

/// Square root rounded to the nearest integer.
pub fn integer_sqrt_round(n: u128) -> (r: u128)
    ensures
        r == round_sqrt(n as nat),
{
    let floor = integer_sqrt_floor(n);
    proof {
        lemma_floor_sqrt(n as nat);
    }
    assert(floor <= 0xffff_ffff_ffff_ffff) by (nonlinear_arith)
        requires
            floor * floor <= n,
            n <= 0xffff_ffff_ffff_ffff_ffff_ffff_ffff_ffff,
    {
        if floor > 0xffff_ffff_ffff_ffff {
            assert(floor * floor >= 0x1_0000_0000_0000_0000 * 0x1_0000_0000_0000_0000);
        }
    }
    let floor_square = floor * floor;
    let below = n - floor_square;
    let next = floor + 1;
    if floor == 0xffff_ffff_ffff_ffff {
        // (floor + 1)² is 2^128, one past the largest u128.
        assert(next * next == 0x1_0000_0000_0000_0000_0000_0000_0000_0000) by (nonlinear_arith)
            requires
                next == 0x1_0000_0000_0000_0000,
        ;
        let above_less_one = u128::MAX - n;
        if below > 0 && above_less_one < below - 1 {
            next
        } else {
            floor
        }
    } else {
        assert(next * next <= 0xffff_ffff_ffff_ffff * 0xffff_ffff_ffff_ffff) by (nonlinear_arith)
            requires
                next <= 0xffff_ffff_ffff_ffff,
        ;
        let next_square = next * next;
        if next_square - n < below {
            next
        } else {
            floor
        }
    }
}

/// The odd-term series `Σ_{k=i}^{19} t_k / (2k+1)`, where `t_{k+1} = t_k·y² / 2^32`.
pub open spec fn ln_series(term: nat, y2: nat, i: nat) -> nat
    decreases 20 - i,
{
    if i >= 20 {
        0
    } else {
        term / (2 * i + 1) + ln_series(term * y2 / pow2(32), y2, i + 1)
    }
}

/// ln(m / 2^32) in Q32 for a Q32 mantissa in [1, 2): `2·artanh((m-1)/(m+1))`.
pub open spec fn ln_mantissa_spec(m: nat) -> nat {
    if m <= pow2(32) {
        0
    } else {
        let y = ((m - pow2(32)) * pow2(32) / ((m + pow2(32)) as int)) as nat;
        let y2 = y * y / pow2(32);
        2 * ln_series(y, y2, 0)
    }
}

/// floor(log2(v)) for `v ≥ 1`.
pub open spec fn log2_floor(v: nat) -> nat
    decreases v,
{
    if v < 2 {
        0
    } else {
        1 + log2_floor(v / 2)
    }
}

/// The Q32 mantissa of `v`: `v · 2^(32-k)` or `v / 2^(k-32)` for `k = log2(v)`.
pub open spec fn mantissa_q32(v: nat) -> nat {
    let k = log2_floor(v);
    if k <= 32 {
        v * pow2((32 - k) as nat)
    } else {
        v / pow2((k - 32) as nat)
    }
}

/// ln(v) in Q32: `log2(v)·ln 2 + ln(mantissa)`; 0 for `v ≤ 1`.
pub open spec fn ln_q32_spec(v: nat) -> nat {
    if v <= 1 {
        0
    } else {
        log2_floor(v) * (LN_2_Q32 as nat) + ln_mantissa_spec(mantissa_q32(v))
    }
}

/// A Q32 value in milli units, rounded half up and capped at `u64::MAX`.
pub open spec fn q32_to_milli_spec(q: nat) -> nat {
    let v = (q * 1000 + pow2(31)) / pow2(32);
    if v > u64::MAX {
        u64::MAX as nat
    } else {
        v
    }
}

/// ln(numerator / denominator) in milli; 0 unless `numerator > denominator > 0`.
pub open spec fn ln_ratio_milli_spec(numerator: nat, denominator: nat) -> nat {
    if denominator == 0 || numerator <= denominator {
        0
    } else {
        let a = ln_q32_spec(numerator);
        let b = ln_q32_spec(denominator);
        q32_to_milli_spec(if a >= b { (a - b) as nat } else { 0 })
    }
}

proof fn lemma_pow2_values()
    ensures
        pow2(0) == 1,
        pow2(31) == 0x8000_0000,
        pow2(32) == 0x1_0000_0000,
{
    reveal_with_fuel(pow2, 33);
}

proof fn lemma_pow2_big()
    ensures
        pow2(63) == 0x8000_0000_0000_0000,
        pow2(64) == 0x1_0000_0000_0000_0000,
        pow2(126) == 0x4000_0000_0000_0000_0000_0000_0000_0000,
{
    lemma_pow2_values();
    lemma_pow2_add(31, 32);
    lemma_pow2_add(32, 32);
    lemma_pow2_add(63, 63);
    assert(0x8000_0000 * 0x1_0000_0000 == 0x8000_0000_0000_0000) by (nonlinear_arith);
    assert(0x1_0000_0000 * 0x1_0000_0000 == 0x1_0000_0000_0000_0000) by (nonlinear_arith);
    assert(0x8000_0000_0000_0000 * 0x8000_0000_0000_0000 == 0x4000_0000_0000_0000_0000_0000_0000_0000)
        by (nonlinear_arith);
}

proof fn lemma_pow2_pos(e: nat)
    ensures
        pow2(e) >= 1,
    decreases e,
{
    if e > 0 {
        lemma_pow2_pos((e - 1) as nat);
    }
}

proof fn lemma_pow2_monotone(a: nat, b: nat)
    requires
        a <= b,
    ensures
        pow2(a) <= pow2(b),
    decreases b,
{
    if a < b {
        lemma_pow2_monotone(a, (b - 1) as nat);
        lemma_pow2_pos((b - 1) as nat);
    }
}

/// `2^e` as a u128, by repeated doubling.
fn pow2_u128(e: u32) -> (r: u128)
    requires
        e < 128,
    ensures
        r == pow2(e as nat),
{
    let mut r: u128 = 1;
    let mut i: u32 = 0;
    while i < e
        invariant
            i <= e,
            e < 128,
            r == pow2(i as nat),
        decreases e - i,
    {
        proof {
            lemma_pow2_monotone(i as nat, 126);
            lemma_pow2_big();
            assert(pow2((i + 1) as nat) == 2 * pow2(i as nat));
        }
        r = r * 2;
        i = i + 1;
    }
    r
}

proof fn lemma_series_term_bound(term: nat, y2: nat)
    requires
        y2 < pow2(32),
    ensures
        term * y2 / pow2(32) <= term,
{
    lemma_pow2_values();
    assert(term * y2 <= term * pow2(32)) by (nonlinear_arith)
        requires
            y2 < pow2(32),
    ;
    assert(term * y2 / pow2(32) <= term * pow2(32) / pow2(32)) by (nonlinear_arith)
        requires
            term * y2 <= term * pow2(32),
            pow2(32) > 0,
    ;
    assert(term * pow2(32) / pow2(32) == term) by (nonlinear_arith)
        requires
            pow2(32) > 0,
    ;
}

proof fn lemma_series_bound(term: nat, y2: nat, i: nat)
    requires
        y2 < pow2(32),
        term < pow2(32),
        i <= 20,
    ensures
        ln_series(term, y2, i) <= (20 - i) * pow2(32),
    decreases 20 - i,
{
    if i < 20 {
        let t2 = term * y2 / pow2(32);
        lemma_series_term_bound(term, y2);
        lemma_series_bound(t2, y2, i + 1);
        assert(ln_series(term, y2, i) == term / (2 * i + 1) + ln_series(t2, y2, i + 1));
        assert(term / (2 * i + 1) <= term) by (nonlinear_arith);
        assert((20 - i) * pow2(32) == (20 - (i + 1)) * pow2(32) + pow2(32)) by (nonlinear_arith);
    }
}

proof fn lemma_series_zero(y2: nat, i: nat)
    ensures
        ln_series(0, y2, i) == 0,
    decreases 20 - i,
{
    if i < 20 {
        lemma_series_zero(y2, i + 1);
        lemma_pow2_values();
        assert(0 * y2 / pow2(32) == 0) by (nonlinear_arith)
            requires
                pow2(32) > 0,
        ;
    }
}

/// ln of a Q32 mantissa in [1, 2) (`2^32 ≤ m < 2^33`), by the odd series of
/// artanh truncated after the term with divisor 39.
fn ln_mantissa_q32(mantissa_q32: u128) -> (r: u128)
    requires
        mantissa_q32 < 0x2_0000_0000,
    ensures
        r == ln_mantissa_spec(mantissa_q32 as nat),
{
    proof {
        lemma_pow2_values();
    }
    if mantissa_q32 <= Q32_ONE {
        return 0;
    }
    let numerator = (mantissa_q32 - Q32_ONE) * Q32_ONE;
    let denominator = mantissa_q32 + Q32_ONE;
    let y_q32 = numerator / denominator;
    assert(y_q32 < Q32_ONE) by (nonlinear_arith)
        requires
            y_q32 == numerator / denominator,
            numerator == (mantissa_q32 - Q32_ONE) * Q32_ONE,
            denominator == mantissa_q32 + Q32_ONE,
            mantissa_q32 > Q32_ONE,
            Q32_ONE > 0,
    ;
    assert(y_q32 * y_q32 < Q32_ONE * Q32_ONE) by (nonlinear_arith)
        requires
            y_q32 < Q32_ONE,
    ;
    let y2_q32 = (y_q32 * y_q32) / Q32_ONE;
    assert(y2_q32 < Q32_ONE) by (nonlinear_arith)
        requires
            y2_q32 == (y_q32 * y_q32) / (Q32_ONE as int),
            y_q32 * y_q32 < Q32_ONE * Q32_ONE,
            Q32_ONE > 0,
    ;
    let ghost y = y_q32 as nat;
    let ghost y2 = y2_q32 as nat;
    let mut term_q32: u128 = y_q32;
    let mut sum_q32: u128 = 0;
    let mut i: u128 = 0;
    while i < LN_SERIES_TERMS
        invariant
            i <= 20,
            y2 == y2_q32,
            y2 < pow2(32),
            term_q32 < pow2(32),
            sum_q32 <= i * pow2(32),
            pow2(32) == Q32_ONE,
            sum_q32 + ln_series(term_q32 as nat, y2, i as nat) == ln_series(y, y2, 0),
        ensures
            i >= 20 || term_q32 == 0,
        decreases 20 - i,
    {
        let divisor = 2 * i + 1;
        sum_q32 = sum_q32 + term_q32 / divisor;
        assert(term_q32 / divisor <= term_q32) by (nonlinear_arith)
            requires
                divisor >= 1,
        ;
        assert(term_q32 * y2_q32 < Q32_ONE * Q32_ONE) by (nonlinear_arith)
            requires
                term_q32 < Q32_ONE,
                y2_q32 < Q32_ONE,
        ;
        proof {
            lemma_series_term_bound(term_q32 as nat, y2);
        }
        term_q32 = (term_q32 * y2_q32) / Q32_ONE;
        i = i + 1;
        if term_q32 == 0 {
            proof {
                lemma_series_zero(y2, i as nat);
            }
            break;
        }
    }
    proof {
        if term_q32 == 0 {
            lemma_series_zero(y2, i as nat);
        }
        assert(ln_series(term_q32 as nat, y2, i as nat) == 0);
    }
    sum_q32 * 2
}

/// floor(log2(v)) for `v ≥ 2`, by repeated halving.
fn log2_floor_u64(value: u64) -> (k: u32)
    requires
        value >= 2,
    ensures
        k == log2_floor(value as nat),
        k <= 63,
        pow2(k as nat) <= value,
{
    let mut v = value;
    let mut k: u32 = 0;
    proof {
        lemma_pow2_values();
    }
    while v >= 2
        invariant
            1 <= v <= value,
            k <= 63,
            k + log2_floor(v as nat) == log2_floor(value as nat),
            pow2(k as nat) * v <= value,
        decreases v,
    {
        proof {
            lemma_pow2_pos(k as nat);
            assert(pow2((k + 1) as nat) * (v / 2) <= value) by (nonlinear_arith)
                requires
                    pow2(k as nat) * v <= value,
                    pow2((k + 1) as nat) == 2 * pow2(k as nat),
            ;
            if k >= 63 {
                lemma_pow2_monotone(64, (k + 1) as nat);
                lemma_pow2_big();
                assert(pow2((k + 1) as nat) * (v / 2) >= pow2((k + 1) as nat)) by (nonlinear_arith)
                    requires
                        v >= 2,
                ;
            }
        }
        v = v / 2;
        k = k + 1;
    }
    proof {
        assert(pow2(k as nat) <= value) by (nonlinear_arith)
            requires
                pow2(k as nat) * v <= value,
                v >= 1,
        ;
    }
    k
}

proof fn lemma_pow2_add(a: nat, b: nat)
    ensures
        pow2(a) * pow2(b) == pow2(a + b),
    decreases a,
{
    if a == 0 {
        assert(pow2(0) == 1);
    } else {
        lemma_pow2_add((a - 1) as nat, b);
        assert(pow2(a + b) == 2 * pow2(((a - 1) + b) as nat));
        assert(pow2(a) * pow2(b) == 2 * (pow2((a - 1) as nat) * pow2(b))) by (nonlinear_arith)
            requires
                pow2(a) == 2 * pow2((a - 1) as nat),
        ;
    }
}

proof fn lemma_log2_bounds(v: nat)
    requires
        v >= 1,
    ensures
        pow2(log2_floor(v)) <= v,
        v < 2 * pow2(log2_floor(v)),
    decreases v,
{
    if v >= 2 {
        lemma_log2_bounds(v / 2);
    }
}

/// ln(value) in Q32 fixed point; 0 for `value ≤ 1`.
fn ln_u64_q32(value: u64) -> (r: u128)
    ensures
        r == ln_q32_spec(value as nat),
        r <= 64 * LN_2_Q32 + 40 * 0x1_0000_0000,
{
    if value <= 1 {
        return 0;
    }
    let log2_floor = log2_floor_u64(value);
    proof {
        lemma_pow2_values();
        lemma_log2_bounds(value as nat);
    }
    let mantissa: u128 = if log2_floor <= 32 {
        let p = pow2_u128(32 - log2_floor);
        proof {
            lemma_pow2_add(log2_floor as nat, (32 - log2_floor) as nat);
            lemma_pow2_pos((32 - log2_floor) as nat);
        }
        assert((value as u128) * p < 0x2_0000_0000) by (nonlinear_arith)
            requires
                pow2(log2_floor as nat) * p == 0x1_0000_0000,
                (value as nat) < 2 * pow2(log2_floor as nat),
                p >= 1,
        ;
        (value as u128) * p
    } else {
        let p = pow2_u128(log2_floor - 32);
        proof {
            lemma_pow2_add(32, (log2_floor - 32) as nat);
            lemma_pow2_pos((log2_floor - 32) as nat);
        }
        assert((value as u128) / p < 0x2_0000_0000) by (nonlinear_arith)
            requires
                0x1_0000_0000 * p == pow2(log2_floor as nat),
                (value as nat) < 2 * pow2(log2_floor as nat),
                p >= 1,
        ;
        (value as u128) / p
    };
    let m = ln_mantissa_q32(mantissa);
    proof {
        lemma_mantissa_bound(mantissa as nat);
    }
    (log2_floor as u128) * LN_2_Q32 + m
}

proof fn lemma_mantissa_bound(m: nat)
    requires
        m < 0x2_0000_0000,
    ensures
        ln_mantissa_spec(m) <= 40 * 0x1_0000_0000,
{
    lemma_pow2_values();
    if m > pow2(32) {
        let y = ((m - pow2(32)) * pow2(32) / ((m + pow2(32)) as int)) as nat;
        assert(y < pow2(32)) by (nonlinear_arith)
            requires
                y == (m - pow2(32)) * pow2(32) / ((m + pow2(32)) as int),
                m > pow2(32),
                pow2(32) > 0,
        ;
        assert(y * y < pow2(32) * pow2(32)) by (nonlinear_arith)
            requires
                y < pow2(32),
        ;
        let y2 = y * y / pow2(32);
        assert(y2 < pow2(32)) by (nonlinear_arith)
            requires
                y2 == y * y / pow2(32),
                y * y < pow2(32) * pow2(32),
                pow2(32) > 0,
        ;
        lemma_series_bound(y, y2, 0);
    }
}

/// A Q32 value in milli units, rounded half up, saturating.
fn q32_to_milli(q32: u128) -> (r: u64)
    requires
        q32 <= 0x80_0000_0000,
    ensures
        r == q32_to_milli_spec(q32 as nat),
        r <= 200_000,
{
    proof {
        lemma_pow2_values();
    }
    let v = (q32 * 1000 + Q32_ONE / 2) / Q32_ONE;
    assert(v <= 200_000) by (nonlinear_arith)
        requires
            v == (q32 * 1000 + 0x8000_0000) / 0x1_0000_0000,
            q32 <= 0x80_0000_0000,
    ;
    if v > u64::MAX as u128 {
        u64::MAX
    } else {
        v as u64
    }
}

/// ln(numerator / denominator) in milli.
fn ln_ratio_milli(numerator: u64, denominator: u64) -> (r: u64)
    ensures
        r == ln_ratio_milli_spec(numerator as nat, denominator as nat),
        r <= 200_000,
{
    if denominator == 0 || numerator <= denominator {
        return 0;
    }
    let a = ln_u64_q32(numerator);
    let b = ln_u64_q32(denominator);
    let d = if a >= b { a - b } else { 0 };
    q32_to_milli(d)
}

/// `2^(64-D) - 1` for `1 ≤ D ≤ 64`, else 0.
pub open spec fn difficulty_target_spec(difficulty: u64) -> u64 {
    if difficulty == 0 || difficulty > 64 {
        0
    } else {
        (pow2((64 - difficulty) as nat) - 1) as u64
    }
}

/// The u64 hash threshold for a difficulty of D leading zero bits:
/// `2^(64-D) - 1` for `1 ≤ D ≤ 64`, and 0 (no valid hash) otherwise.
pub fn difficulty_to_target(difficulty: u64) -> (t: u64)
    ensures
        t == difficulty_target_spec(difficulty),
{
    if difficulty == 0 || difficulty > 64 {
        return 0;
    }
    let p = pow2_u128((64 - difficulty) as u32);
    proof {
        lemma_pow2_pos((64 - difficulty) as nat);
        lemma_pow2_monotone((64 - difficulty) as nat, 63);
        lemma_pow2_big();
    }
    assert(p <= 0x8000_0000_0000_0000);
    (p - 1) as u64
}

/// Vein yield in milli: `1000 + round(sqrt(1000 · ln_milli(target / hash)))`,
/// and exactly 1000 when the difficulty is 0 or above 64, the hash is 0, or
/// the hash is not below the target.
pub open spec fn vein_yield_spec(difficulty: u64, hash_int: u64) -> u64 {
    let target = difficulty_target_spec(difficulty);
    if difficulty == 0 || hash_int == 0 || target == 0 || target <= hash_int {
        1000
    } else {
        let ln_val = round_sqrt(ln_ratio_milli_spec(target as nat, hash_int as nat) * 1000);
        if 1000 + ln_val > u64::MAX {
            u64::MAX
        } else {
            (1000 + ln_val) as u64
        }
    }
}

/// Every block earns at least the 1.0x vein yield, and exactly 1.0x when the
/// difficulty is out of range (0 or above 64), the hash is zero, or the hash
/// does not fall below the target.
pub proof fn lemma_vein_yield_floor(difficulty: u64, hash_int: u64)
    ensures
        vein_yield_spec(difficulty, hash_int) >= 1000,
        difficulty == 0 || difficulty > 64 || hash_int == 0 || hash_int >= difficulty_target_spec(difficulty)
            ==> vein_yield_spec(difficulty, hash_int) == 1000,
{
}

/// Compute vein yield in milli (1000 = 1.0x). Every valid block earns at
/// least 1.0x.
pub fn compute_vein_yield(difficulty: u64, hash_int: u64) -> (y: u64)
    ensures
        y == vein_yield_spec(difficulty, hash_int),
        y >= 1000,
{
    if difficulty == 0 || hash_int == 0 {
        return 1000;
    }
    let target = difficulty_to_target(difficulty);
    if target == 0 {
        return 1000;
    }
    if target <= hash_int {
        return 1000;
    }
    let ln_ratio = ln_ratio_milli(target, hash_int);
    let ln_val = integer_sqrt_round(ln_ratio as u128 * 1000);
    if ln_val > (u64::MAX - 1000) as u128 {
        u64::MAX
    } else {
        1000 + ln_val as u64
    }
}

/// The reward before vein yield: `base_reward / max(difficulty, 1)`.
pub open spec fn base_reward_spec(base_reward: u64, difficulty: u64) -> u64 {
    if difficulty < MIN_DIFFICULTY {
        base_reward
    } else {
        base_reward / difficulty
    }
}

/// The base block reward, shrinking as difficulty grows.
pub fn compute_base_reward(base_reward: FlakeAmount, difficulty: u64) -> (r: FlakeAmount)
    ensures
        r == base_reward_spec(base_reward, difficulty),
{
    let effective_difficulty = if difficulty < MIN_DIFFICULTY {
        MIN_DIFFICULTY
    } else {
        difficulty
    };
    base_reward / effective_difficulty
}

/// The block reward with vein yield: `base · yield / 1000`, saturating.
pub open spec fn block_reward_spec(base_reward: u64, difficulty: u64, pow_hash_value: u64) -> u64 {
    let v = base_reward_spec(base_reward, difficulty) * vein_yield_spec(difficulty, pow_hash_value)
        / 1000;
    if v > u64::MAX {
        u64::MAX
    } else {
        v as u64
    }
}

/// Total block reward using vein yield.
pub fn compute_block_reward(
    base_reward: FlakeAmount,
    difficulty: u64,
    pow_hash_value: u64,
) -> (r: FlakeAmount)
    ensures
        r == block_reward_spec(base_reward, difficulty, pow_hash_value),
        r >= base_reward_spec(base_reward, difficulty),
{
    let base = compute_base_reward(base_reward, difficulty);
    let yield_milli = compute_vein_yield(difficulty, pow_hash_value);
    assert((base as u128) * (yield_milli as u128) <= u64::MAX as u128 * u64::MAX as u128)
        by (nonlinear_arith);
    let v = (base as u128 * yield_milli as u128) / 1000;
    assert(v >= base) by (nonlinear_arith)
        requires
            v == (base as u128 * yield_milli as u128) / 1000,
            yield_milli >= 1000,
    ;
    if v > u64::MAX as u128 {
        u64::MAX
    } else {
        v as u64
    }
}

/// `ln(x / 1000) · 1000` for `x` in milli units; 0 for `x < 1000`.
pub fn ln_milli(x: u64) -> (r: u64)
    ensures
        r == (if x < 1000 { 0 } else { ln_ratio_milli_spec(x as nat, 1000) }),
{
    if x < 1000 {
        return 0;
    }
    ln_ratio_milli(x, 1000)
}

/// A bond entry's weight: exactly its stake; age adds nothing.
pub fn compute_refiner_weight(stake: FlakeAmount, _age_years_milli: u64) -> (w: FlakeAmount)
    ensures
        w == stake,
{
    stake
}

/// Stake coverage in milli: `bonded · 1000 / issued`, capped at 1000; 0 when
/// nothing has been issued.
pub open spec fn stake_coverage_spec(total_bonded: u64, total_issued: u64) -> u64 {
    if total_issued == 0 {
        0
    } else if (total_bonded as int) * 1000 / (total_issued as int) > 1000 {
        1000
    } else {
        ((total_bonded as int) * 1000 / (total_issued as int)) as u64
    }
}

/// Ratio of bonded stake to issued supply, in milli, clamped to [0, 1000].
pub fn compute_stake_coverage(total_bonded: FlakeAmount, total_issued: FlakeAmount) -> (c: u64)
    ensures
        c == stake_coverage_spec(total_bonded, total_issued),
        c <= 1000,
{
    if total_issued == 0 {
        return 0;
    }
    let v = (total_bonded as u128 * 1000) / total_issued as u128;
    if v > 1000 {
        1000
    } else {
        v as u64
    }
}

/// The EMA update of the suggested fee: `max(MIN_FEE, (avg + 9·old) / 10)`,
/// where `avg` is the average fee of the successful transactions of the
/// previous block (`MIN_FEE` when there were none), with saturating sums.
pub open spec fn suggested_fee_spec(
    previous_block_fees: u64,
    successful_transaction_count: u64,
    previous_suggested_fee: u64,
) -> u64 {
    let current: nat = if successful_transaction_count == 0 {
        MIN_FEE as nat
    } else {
        (previous_block_fees / successful_transaction_count) as nat
    };
    let old_part: nat = if previous_suggested_fee * 9 > u64::MAX {
        u64::MAX as nat
    } else {
        (previous_suggested_fee * 9) as nat
    };
    let sum: nat = if current + old_part > u64::MAX {
        u64::MAX as nat
    } else {
        current + old_part
    };
    let ema = sum / 10;
    if ema < MIN_FEE {
        MIN_FEE
    } else {
        ema as u64
    }
}

/// Suggested fee for the next block: an exponential moving average (window
/// `CAPACITY_RATIO` = 10 blocks) of the average successful-transaction fee,
/// floored at `MIN_FEE`.
pub fn compute_suggested_fee(
    previous_block_fees: FlakeAmount,
    successful_transaction_count: u64,
    previous_suggested_fee: FlakeAmount,
) -> (f: FlakeAmount)
    ensures
        f == suggested_fee_spec(
            previous_block_fees,
            successful_transaction_count,
            previous_suggested_fee,
        ),
        f >= MIN_FEE,
{
    let current = if successful_transaction_count == 0 {
        MIN_FEE
    } else {
        previous_block_fees / successful_transaction_count
    };
    let window = if CAPACITY_RATIO < 1 { 1 } else { CAPACITY_RATIO };
    let old_weight = window - 1;
    let old_part = if previous_suggested_fee > u64::MAX / old_weight {
        u64::MAX
    } else {
        previous_suggested_fee * old_weight
    };
    let sum = if current > u64::MAX - old_part {
        u64::MAX
    } else {
        current + old_part
    };
    let ema = sum / window;
    if ema < MIN_FEE {
        MIN_FEE
    } else {
        ema
    }
}

/// Harder targets: over the valid difficulties (1 to 64 leading zero bits),
/// a higher difficulty never has a larger target.
pub proof fn lemma_target_monotonic(d1: u64, d2: u64)
    requires
        1 <= d1 <= d2 <= 64,
    ensures
        difficulty_target_spec(d2) <= difficulty_target_spec(d1),
{
    let e1 = (64 - d1) as nat;
    let e2 = (64 - d2) as nat;
    lemma_pow2_pos(e2);
    lemma_pow2_pos(e1);
    lemma_pow2_monotone(e2, e1);
    lemma_pow2_monotone(e1, 63);
    lemma_pow2_big();
}

/// Rewards shrink as difficulty grows: the base reward never increases with
/// the difficulty.
pub proof fn lemma_base_reward_decreases(base_reward: u64, d1: u64, d2: u64)
    requires
        MIN_DIFFICULTY <= d1 <= d2,
    ensures
        base_reward_spec(base_reward, d2) <= base_reward_spec(base_reward, d1),
{
    vstd::arithmetic::div_mod::lemma_div_is_ordered_by_denominator(base_reward as int, d1 as int, d2 as int);
}

} // verus!
