//! Q16.16 fixed-point arithmetic for memory cell values.
//!
//! A cell value is an `i64` whose low 16 bits are the fractional part: the
//! integer `v` stands for the real number `v / 65536`. The saturating
//! activation `f(x) = 2/(1 + e^(-2x)) - 1` is realized here entirely in
//! integer arithmetic: `e^(-t)` is split into `e^(-n) * e^(-r)` for the
//! integer part `n` and fractional part `r` of `t`, with `e^(-n)` computed by
//! repeated multiplication with `1/e` and `e^(-r)` by a truncated power
//! series.

use vstd::prelude::*;

verus! {

/// One whole unit (the real number 1.0) in Q16.16 fixed point.
pub const FIXED_ONE: i64 = 65536;

/// Half a unit (the real number 0.5).
pub const FIXED_HALF: i64 = 32768;

/// The reciprocal of Euler's number, rounded to Q16.16.
pub const FIXED_INV_E: i64 = 24109;

/// Clamps a value to the unit interval `[-1.0, +1.0]`.
pub open spec fn spec_clamp_unit(v: int) -> int {
    if v < -65536 {
        -65536
    } else if v > 65536 {
        65536
    } else {
        v
    }
}

/// `(1/e)^n` in Q16.16, by repeated multiplication.
pub open spec fn spec_inv_e_pow(n: nat) -> int
    decreases n,
{
    if n == 0 {
        65536
    } else {
        spec_inv_e_pow((n - 1) as nat) * 24109 / 65536
    }
}

/// `e^(-r)` for a fractional argument `0 <= r < 1.0`, by a truncated
/// alternating power series in Q16.16.
pub open spec fn spec_exp_frac(r: int) -> int {
    65536 - r + (r * r) / (131072 as int) - ((r * r) / (65536 as int)) * r / (393216 as int)
}

/// `e^(-t)` for `t >= 0` in Q16.16. Arguments of 32.0 and above underflow
/// to zero.
pub open spec fn spec_exp_neg(t: int) -> int
    recommends
        t >= 0,
{
    let n = t / 65536;
    let r = t % 65536;
    if n >= 32 {
        0
    } else {
        spec_exp_frac(r) * spec_inv_e_pow(n as nat) / 65536
    }
}

/// The saturating activation `f(x) = 2/(1 + e^(-2x)) - 1`, equivalently
/// `(1 - e^(-2|x|)) / (1 + e^(-2|x|))` with the sign of `x`. It is odd,
/// maps 0 to exactly 0 and stays within `[-1.0, +1.0]`.
pub open spec fn spec_activation(x: int) -> int {
    let t = 2 * (if x >= 0 { x } else { -x });
    let e = spec_exp_neg(t);
    let mag = (65536 - e) * 65536 / (65536 + e);
    if x >= 0 {
        mag
    } else {
        -mag
    }
}

proof fn lemma_inv_e_pow_range(n: nat)
    ensures
        0 <= spec_inv_e_pow(n) <= 65536,
    decreases n,
{
    if n > 0 {
        lemma_inv_e_pow_range((n - 1) as nat);
        let p = spec_inv_e_pow((n - 1) as nat);
        let unit: int = 65536;
        assert(p * 24109 <= unit * 24109) by (nonlinear_arith)
            requires 0 <= p <= unit;
        vstd::arithmetic::div_mod::lemma_div_is_ordered(p * 24109, unit * 24109, unit);
        vstd::arithmetic::div_mod::lemma_div_pos_is_pos(p * 24109, unit);
    }
}

proof fn lemma_exp_frac_range(r: int)
    requires
        0 <= r < 65536,
    ensures
        0 < spec_exp_frac(r) <= 65536,
{
    let unit: int = 65536;
    let a = (r * r) / (2 * unit);
    let m = (r * r) / unit;
    let b = m * r / (6 * unit);
    assert(r * r >= 0) by (nonlinear_arith);
    vstd::arithmetic::div_mod::lemma_div_pos_is_pos(r * r, 2 * unit);
    vstd::arithmetic::div_mod::lemma_div_pos_is_pos(r * r, unit);
    // a <= r, because r*r <= (2*unit)*r.
    assert(r * r <= (2 * unit) * r) by (nonlinear_arith)
        requires 0 <= r < unit;
    vstd::arithmetic::div_mod::lemma_div_is_ordered(r * r, (2 * unit) * r, 2 * unit);
    vstd::arithmetic::div_mod::lemma_div_multiples_vanish(r, 2 * unit);
    assert(a <= r);
    // b <= a, so the two series tails cancel against each other.
    assert(m * unit <= r * r) by {
        vstd::arithmetic::div_mod::lemma_fundamental_div_mod(r * r, unit);
        vstd::arithmetic::div_mod::lemma_mod_bound(r * r, unit);
    };
    assert(m * r <= m * unit) by (nonlinear_arith)
        requires 0 <= r < unit, m >= 0;
    vstd::arithmetic::div_mod::lemma_div_is_ordered(m * r, r * r, 6 * unit);
    vstd::arithmetic::div_mod::lemma_div_is_ordered_by_denominator(r * r, 2 * unit, 6 * unit);
    assert(b <= a);
    vstd::arithmetic::div_mod::lemma_div_pos_is_pos(m * r, 6 * unit);
}

proof fn lemma_exp_neg_range(t: int)
    requires
        t >= 0,
    ensures
        0 <= spec_exp_neg(t) <= 65536,
{
    let unit: int = 65536;
    let n = t / 65536;
    let r = t % 65536;
    vstd::arithmetic::div_mod::lemma_mod_bound(t, unit);
    vstd::arithmetic::div_mod::lemma_div_pos_is_pos(t, unit);
    if n < 32 {
        lemma_exp_frac_range(r);
        lemma_inv_e_pow_range(n as nat);
        let p = spec_exp_frac(r);
        let q = spec_inv_e_pow(n as nat);
        assert(0 <= p * q <= unit * unit) by (nonlinear_arith)
            requires 0 <= p <= unit, 0 <= q <= unit;
        vstd::arithmetic::div_mod::lemma_div_is_ordered(p * q, unit * unit, unit);
        vstd::arithmetic::div_mod::lemma_div_pos_is_pos(p * q, unit);
    }
}

/// The activation stays within the unit interval.
pub proof fn lemma_activation_range(x: int)
    ensures
        -65536 <= spec_activation(x) <= 65536,
{
    let unit: int = 65536;
    let t = 2 * (if x >= 0 { x } else { -x });
    lemma_exp_neg_range(t);
    let e = spec_exp_neg(t);
    let mag = (65536 - e) * 65536 / (65536 + e);
    assert((unit - e) * unit <= (unit + e) * unit) by (nonlinear_arith)
        requires 0 <= e <= unit;
    vstd::arithmetic::div_mod::lemma_div_is_ordered((unit - e) * unit, (unit + e) * unit, unit + e);
    vstd::arithmetic::div_mod::lemma_div_by_multiple(unit, unit + e);
    vstd::arithmetic::div_mod::lemma_div_pos_is_pos((unit - e) * unit, unit + e);
    assert(0 <= mag <= 65536);
}

/// The activation maps 0 to exactly 0.
pub proof fn lemma_activation_zero()
    ensures
        spec_activation(0) == 0,
{
    assert(spec_exp_frac(0) == 65536);
    assert(spec_inv_e_pow(0nat) == 65536);
    assert(spec_exp_neg(0) == 65536);
}

/// The activation is an odd function.
pub proof fn lemma_activation_odd(x: int)
    ensures
        spec_activation(-x) == -spec_activation(x),
{
    lemma_activation_zero();
}

/// Computes the activation of one cell value.
pub fn activation_cell(x: i64) -> (r: i64)
    ensures
        r == spec_activation(x as int),
        -65536 <= r <= 65536,
{
    proof {
        lemma_activation_range(x as int);
    }
    let xi: i128 = x as i128;
    let mag_in: i128 = if xi >= 0 {
        xi
    } else {
        -xi
    };
    let t: i128 = 2 * mag_in;
    let n: i128 = t / 65536;
    let e: i64 = if n >= 32 {
        0
    } else {
        let r_frac: i64 = (t % 65536) as i64;
        proof {
            vstd::arithmetic::div_mod::lemma_mod_bound(t as int, 65536);
        }
        let frac: i64 = exp_frac_cell(r_frac);
        let pow: i64 = inv_e_pow_cell(n as u32);
        proof {
            assert(frac * pow <= 65536 * 65536) by (nonlinear_arith)
                requires 0 <= frac <= 65536, 0 <= pow <= 65536;
            assert(frac * pow >= 0) by (nonlinear_arith)
                requires frac >= 0, pow >= 0;
        }
        frac * pow / 65536
    };
    proof {
        lemma_exp_neg_range(2 * (if x as int >= 0 { x as int } else { -(x as int) }));
    }
    let mag: i64 = (65536 - e) * 65536 / (65536 + e);
    if x >= 0 {
        mag
    } else {
        -mag
    }
}

fn exp_frac_cell(r: i64) -> (p: i64)
    requires
        0 <= r < 65536,
    ensures
        p == spec_exp_frac(r as int),
        0 < p <= 65536,
{
    proof {
        lemma_exp_frac_range(r as int);
        let unit: int = 65536;
        assert(0 <= r * r < unit * unit) by (nonlinear_arith)
            requires 0 <= r < unit;
        vstd::arithmetic::div_mod::lemma_div_pos_is_pos(r as int * r as int, 2 * unit);
        vstd::arithmetic::div_mod::lemma_div_is_ordered(r as int * r as int, unit * unit, 2 * unit);
        vstd::arithmetic::div_mod::lemma_div_pos_is_pos(r as int * r as int, unit);
        vstd::arithmetic::div_mod::lemma_div_is_ordered(r as int * r as int, unit * unit, unit);
        let m = (r as int * r as int) / unit;
        assert(0 <= m * r <= unit * unit) by (nonlinear_arith)
            requires 0 <= m <= unit, 0 <= r < unit;
        vstd::arithmetic::div_mod::lemma_div_pos_is_pos(m * r, 6 * unit);
        vstd::arithmetic::div_mod::lemma_div_is_ordered(m * r, unit * unit, 6 * unit);
    }
    65536 - r + (r * r) / (2 * 65536) - ((r * r) / 65536) * r / (6 * 65536)
}

fn inv_e_pow_cell(n: u32) -> (q: i64)
    requires
        n < 32,
    ensures
        q == spec_inv_e_pow(n as nat),
        0 <= q <= 65536,
{
    let mut acc: i64 = 65536;
    let mut k: u32 = 0;
    while k < n
        invariant
            k <= n < 32,
            acc == spec_inv_e_pow(k as nat),
            0 <= acc <= 65536,
        decreases n - k,
    {
        proof {
            lemma_inv_e_pow_range((k + 1) as nat);
            assert(acc * 24109 <= 65536 * 24109) by (nonlinear_arith)
                requires 0 <= acc <= 65536;
            assert(acc * 24109 >= 0) by (nonlinear_arith)
                requires acc >= 0;
        }
        acc = acc * FIXED_INV_E / FIXED_ONE;
        k = k + 1;
    }
    acc
}

/// Clamps a cell value to the unit interval `[-1.0, +1.0]`.
pub fn clamp_unit_cell(v: i64) -> (r: i64)
    ensures
        r == spec_clamp_unit(v as int),
{
    if v < -65536 {
        -65536
    } else if v > 65536 {
        65536
    } else {
        v
    }
}

/// The mutated value of a cell: the unit draw `u` is centered around 0.5,
/// scaled by the mutation rate, added to the current value, and the sum is
/// clamped to the unit interval.
pub open spec fn spec_mutate(cur: int, rate: int, u: int) -> int {
    let c = u - 32768;
    let cmag = if c >= 0 {
        c
    } else {
        -c
    };
    let rmag = if rate >= 0 {
        rate
    } else {
        -rate
    };
    let omag = cmag * rmag / 65536;
    let shifted = if (c >= 0) == (rate >= 0) {
        cur + omag
    } else {
        cur - omag
    };
    spec_clamp_unit(shifted)
}

/// Computes the mutated value of a cell from the current value, the
/// mutation rate and a unit-interval draw.
pub fn mutate_cell(cur: i64, rate: i64, u: i64) -> (r: i64)
    requires
        0 <= u < 65536,
    ensures
        r == spec_mutate(cur as int, rate as int, u as int),
        -65536 <= r <= 65536,
{
    let c: i64 = u - FIXED_HALF;
    let cmag: i128 = if c >= 0 {
        c as i128
    } else {
        -(c as i128)
    };
    let rmag: i128 = if rate >= 0 {
        rate as i128
    } else {
        -(rate as i128)
    };
    proof {
        let big: int = 0x8000_0000_0000_0000;
        assert(cmag * rmag <= 32768 * big) by (nonlinear_arith)
            requires 0 <= cmag <= 32768, 0 <= rmag <= big;
        assert(cmag * rmag >= 0) by (nonlinear_arith)
            requires cmag >= 0, rmag >= 0;
        vstd::arithmetic::div_mod::lemma_div_pos_is_pos(cmag as int * rmag as int, 65536);
        vstd::arithmetic::div_mod::lemma_div_is_ordered(
            cmag as int * rmag as int,
            32768 * big,
            65536,
        );
    }
    let omag: i128 = cmag * rmag / 65536;
    let shifted: i128 = if (c >= 0) == (rate >= 0) {
        cur as i128 + omag
    } else {
        cur as i128 - omag
    };
    if shifted < -65536 {
        -65536
    } else if shifted > 65536 {
        65536
    } else {
        shifted as i64
    }
}

/// The resource sensor reading: the fraction of the initial resource budget
/// that is still available, in Q16.16.
pub open spec fn spec_resource_sensor(avail: int) -> int {
    avail * 65536 / 10000
}

/// Computes the resource sensor reading.
pub fn resource_sensor_cell(avail: u32) -> (r: i64)
    ensures
        r == spec_resource_sensor(avail as int),
{
    proof {
        let big: int = 0x1_0000_0000;
        assert(avail * 65536 <= big * 65536) by (nonlinear_arith)
            requires 0 <= avail < big;
        vstd::arithmetic::div_mod::lemma_div_pos_is_pos(avail as int * 65536, 10000);
        vstd::arithmetic::div_mod::lemma_div_is_ordered(avail as int * 65536, big * 65536, 10000);
    }
    ((avail as u64) * 65536 / 10000) as i64
}

/// The memory-size sensor reading: the memory size divided by 1024, in
/// Q16.16, saturating at the largest cell value.
pub open spec fn spec_memory_sensor(ms: int) -> int {
    if ms * 65536 / 1024 > i64::MAX {
        i64::MAX as int
    } else {
        ms * 65536 / 1024
    }
}

/// Computes the memory-size sensor reading.
pub fn memory_sensor_cell(ms: usize) -> (r: i64)
    ensures
        r == spec_memory_sensor(ms as int),
{
    proof {
        let big: int = 0x1_0000_0000_0000_0000;
        assert(ms * 65536 <= big * 65536) by (nonlinear_arith)
            requires 0 <= ms < big;
        vstd::arithmetic::div_mod::lemma_div_pos_is_pos(ms as int * 65536, 1024);
        vstd::arithmetic::div_mod::lemma_div_is_ordered(ms as int * 65536, big * 65536, 1024);
    }
    let v: u128 = (ms as u128) * 65536 / 1024;
    if v > i64::MAX as u128 {
        i64::MAX
    } else {
        v as i64
    }
}

} // verus!
