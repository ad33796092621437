//! Easing curves for transition progress, in fixed-point permille
//! arithmetic: a progress value runs from 0 to [`PROGRESS_ONE`].

use vstd::prelude::*;
use vstd::arithmetic::div_mod::lemma_div_is_ordered;

verus! {

/// Fixed-point representation of progress 1.0.
pub const PROGRESS_ONE: u32 = 1000;

/// Quadratic ease-in: starts slow, ends fast.
pub open spec fn sp_ease_in(t: int) -> int {
    t * t / 1000
}

/// Quadratic ease-out: starts fast, ends slow.
pub open spec fn sp_ease_out(t: int) -> int {
    1000 - (1000 - t) * (1000 - t) / 1000
}

/// Piecewise quadratic ease-in-out.
pub open spec fn sp_ease_in_out(t: int) -> int {
    if t < 500 {
        2 * t * t / 1000
    } else {
        1000 - 2 * (1000 - t) * (1000 - t) / 1000
    }
}

/// Cubic acceleration: starts very slow, ends very fast.
pub open spec fn sp_ease_cubic(t: int) -> int {
    t * t * t / 1000000
}

/// Piecewise cubic ease-in-out.
pub open spec fn sp_ease_cubic_in_out(t: int) -> int {
    if t < 500 {
        4 * t * t * t / 1000000
    } else {
        1000 - 4 * (1000 - t) * (1000 - t) * (1000 - t) / 1000000
    }
}

/// Rational approximation of the sine over one half turn: `a` counts
/// thousandths of a full turn, `0 <= a <= 500`, and the result is the sine
/// scaled by 1000.
pub open spec fn sp_sin_half(a: int) -> int {
    16000 * a * (500 - a) / (1250000 - 4 * a * (500 - a))
}

/// Sine over a full turn of 1000 units, scaled by 1000.
pub open spec fn sp_sin_turn(a: int) -> int {
    if a <= 500 {
        sp_sin_half(a)
    } else {
        -sp_sin_half(a - 500)
    }
}

/// Sinusoidal ease-in-out: the squared sine of a quarter turn swept over
/// the progress range.
pub open spec fn sp_ease_sine(t: int) -> int {
    sp_sin_half(t / 4) * sp_sin_half(t / 4) / 1000
}

/// The product `a * (500 - a)` peaks at the middle of the half turn.
proof fn lemma_half_product_bounds(a: int)
    by (nonlinear_arith)
    requires
        0 <= a <= 500,
    ensures
        0 <= a * (500 - a) <= 62500,
{
}

/// The half-turn sine stays within `[0, 1000]`.
pub proof fn lemma_sin_half_bounds(a: int)
    requires
        0 <= a <= 500,
    ensures
        0 <= sp_sin_half(a) <= 1000,
{
    lemma_half_product_bounds(a);
    let q = a * (500 - a);
    assert(16000 * q <= 1000 * (1250000 - 4 * q)) by (nonlinear_arith)
        requires
            0 <= q <= 62500,
    ;
    assert(1250000 - 4 * q >= 1000000);
    lemma_div_is_ordered(16000 * q, 1000 * (1250000 - 4 * q), 1250000 - 4 * q);
    vstd::arithmetic::div_mod::lemma_div_multiples_vanish(1000, 1250000 - 4 * q);
    assert((1250000 - 4 * q) * 1000 == 1000 * (1250000 - 4 * q)) by (nonlinear_arith);
    assert(16000 * q >= 0) by (nonlinear_arith)
        requires
            q >= 0,
    ;
    vstd::arithmetic::div_mod::lemma_div_pos_is_pos(16000 * q, 1250000 - 4 * q);
    assert(16000 * a * (500 - a) == 16000 * q && 4 * a * (500 - a) == 4 * q)
        by (nonlinear_arith)
        requires
            q == a * (500 - a),
    ;
}

pub fn sin_half(a: u32) -> (r: u32)
    requires
        a <= 500,
    ensures
        r == sp_sin_half(a as int),
        r <= 1000,
{
    proof {
        lemma_half_product_bounds(a as int);
        lemma_sin_half_bounds(a as int);
        assert(16000 * (a * (500 - a)) == 16000 * a * (500 - a)) by (nonlinear_arith);
        assert(4 * (a * (500 - a)) == 4 * a * (500 - a)) by (nonlinear_arith);
    }
    let q: u64 = (a as u64) * (500 - a) as u64;
    let num: u64 = 16000 * q;
    let den: u64 = 1250000 - 4 * q;
    (num / den) as u32
}

/// Sine over a full turn, as a signed permille value in `[-1000, 1000]`.
pub fn sin_turn(a: u32) -> (r: i32)
    requires
        a < 1000,
    ensures
        r == sp_sin_turn(a as int),
        -1000 <= r <= 1000,
{
    if a <= 500 {
        let s = sin_half(a);
        s as i32
    } else {
        proof {
            lemma_sin_half_bounds(a - 500);
        }
        let s = sin_half(a - 500);
        -(s as i32)
    }
}

pub fn ease_in(t: u32) -> (r: u32)
    requires
        t <= 1000,
    ensures
        r == sp_ease_in(t as int),
        r <= 1000,
{
    proof {
        assert(0 <= t * t <= 1000000) by (nonlinear_arith)
            requires
                0 <= t <= 1000,
        ;
        lemma_div_is_ordered(t * t, 1000000, 1000);
        vstd::arithmetic::div_mod::lemma_div_pos_is_pos(t * t, 1000);
    }
    let p: u64 = (t as u64) * (t as u64);
    (p / 1000) as u32
}

pub fn ease_out(t: u32) -> (r: u32)
    requires
        t <= 1000,
    ensures
        r == sp_ease_out(t as int),
        r <= 1000,
{
    let u: u32 = 1000 - t;
    proof {
        assert(0 <= u * u <= 1000000) by (nonlinear_arith)
            requires
                0 <= u <= 1000,
        ;
        lemma_div_is_ordered(u * u, 1000000, 1000);
        vstd::arithmetic::div_mod::lemma_div_pos_is_pos(u * u, 1000);
    }
    let p: u64 = (u as u64) * (u as u64);
    1000 - (p / 1000) as u32
}

pub fn ease_in_out(t: u32) -> (r: u32)
    requires
        t <= 1000,
    ensures
        r == sp_ease_in_out(t as int),
        r <= 1000,
{
    if t < 500 {
        proof {
            assert(0 <= 2 * t * t <= 500000) by (nonlinear_arith)
                requires
                    0 <= t < 500,
            ;
            lemma_div_is_ordered(2 * t * t, 500000, 1000);
            vstd::arithmetic::div_mod::lemma_div_pos_is_pos(2 * t * t, 1000);
        }
        let p: u64 = 2 * (t as u64) * (t as u64);
        (p / 1000) as u32
    } else {
        let u: u32 = 1000 - t;
        proof {
            assert(0 <= 2 * u * u <= 500000) by (nonlinear_arith)
                requires
                    0 <= u <= 500,
            ;
            lemma_div_is_ordered(2 * u * u, 500000, 1000);
            vstd::arithmetic::div_mod::lemma_div_pos_is_pos(2 * u * u, 1000);
        }
        let p: u64 = 2 * (u as u64) * (u as u64);
        1000 - (p / 1000) as u32
    }
}

pub fn ease_cubic(t: u32) -> (r: u32)
    requires
        t <= 1000,
    ensures
        r == sp_ease_cubic(t as int),
        r <= 1000,
{
    proof {
        assert(0 <= t * t <= 1000000 && 0 <= t * t * t <= 1000000000) by (nonlinear_arith)
            requires
                0 <= t <= 1000,
        ;
        lemma_div_is_ordered(t * t * t, 1000000000, 1000000);
        vstd::arithmetic::div_mod::lemma_div_pos_is_pos(t * t * t, 1000000);
    }
    let p: u64 = (t as u64) * (t as u64) * (t as u64);
    (p / 1000000) as u32
}

pub fn ease_cubic_in_out(t: u32) -> (r: u32)
    requires
        t <= 1000,
    ensures
        r == sp_ease_cubic_in_out(t as int),
        r <= 1000,
{
    if t < 500 {
        proof {
            assert(0 <= t * t <= 250000 && 0 <= 4 * t * t <= 1000000 && 0 <= 4 * (t * t) * t
                <= 500000000 && 0 <= 4 * (t * t * t) <= 500000000) by (nonlinear_arith)
                requires
                    0 <= t < 500,
            ;
            lemma_div_is_ordered(4 * (t * t * t), 500000000, 1000000);
            vstd::arithmetic::div_mod::lemma_div_pos_is_pos(4 * (t * t * t), 1000000);
            assert(4 * (t * t * t) == 4 * t * t * t) by (nonlinear_arith);
        }
        let p: u64 = 4 * (t as u64) * (t as u64) * (t as u64);
        (p / 1000000) as u32
    } else {
        let u: u32 = 1000 - t;
        proof {
            assert(0 <= u * u <= 250000 && 0 <= 4 * u * u <= 1000000 && 0 <= 4 * (u * u) * u
                <= 500000000 && 0 <= 4 * (u * u * u) <= 500000000) by (nonlinear_arith)
                requires
                    0 <= u <= 500,
            ;
            lemma_div_is_ordered(4 * (u * u * u), 500000000, 1000000);
            vstd::arithmetic::div_mod::lemma_div_pos_is_pos(4 * (u * u * u), 1000000);
            assert(4 * (u * u * u) == 4 * u * u * u) by (nonlinear_arith);
        }
        let p: u64 = 4 * (u as u64) * (u as u64) * (u as u64);
        1000 - (p / 1000000) as u32
    }
}

pub fn ease_sine(t: u32) -> (r: u32)
    requires
        t <= 1000,
    ensures
        r == sp_ease_sine(t as int),
        r <= 1000,
{
    let a: u32 = t / 4;
    let s = sin_half(a);
    proof {
        assert(0 <= s * s <= 1000000) by (nonlinear_arith)
            requires
                0 <= s <= 1000,
        ;
        lemma_div_is_ordered(s * s, 1000000, 1000);
        vstd::arithmetic::div_mod::lemma_div_pos_is_pos(s * s, 1000);
    }
    let p: u64 = (s as u64) * (s as u64);
    (p / 1000) as u32
}

} // verus!
