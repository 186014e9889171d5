//! Fixed-point scales, bounds, and the small integer toolbox (floor division,
//! integer square root, clamping) that the rest of the crate builds on.

use vstd::prelude::*;
use vstd::arithmetic::div_mod::{lemma_fundamental_div_mod, lemma_fundamental_div_mod_converse};

verus! {

/// A curve parameter of one: parameters range over `[0, PARAM_ONE]`,
/// standing for the real interval `[0, 1]`.
pub const PARAM_ONE: i64 = 1000;

/// `PARAM_ONE` squared, the denominator of the raw tangent formula.
pub const PARAM_ONE_SQ: i64 = 1_000_000;

/// `PARAM_ONE` cubed, the denominator of the Bernstein position formula.
pub const PARAM_ONE_CUBED: i64 = 1_000_000_000;

/// One second of tick time: `dt` values are thousandths of a second.
pub const TIME_ONE: i64 = 1000;

/// Bound on the magnitude of a control-point coordinate (units of a
/// thousandth of a meter, so one million meters).
pub const MAX_COORD: i64 = 1_000_000_000;

/// Bound on the magnitude of a coordinate of an evaluated curve position,
/// derived from `MAX_COORD` and the Bernstein weights.
pub const EVAL_BOUND: i64 = 20_000_000_000;

/// Bound on the magnitude of a coordinate of a raw (unnormalized) tangent.
pub const TAN_BOUND: i64 = 40_000_000_000;

/// Bound on the straight-line distance between two evaluated positions.
pub const CHORD_BOUND: i64 = 70_000_000_000;

/// Largest accepted sample count for an arc-length table.
pub const MAX_SAMPLES: u32 = 1000;

/// Bound on a segment's arc length: `MAX_SAMPLES` chords of at most
/// `CHORD_BOUND` each, rounded up.
pub const LEN_LIMIT: i64 = 100_000_000_000_000;

/// Bound on the magnitude of a vehicle's signed distance within a segment.
pub const DIST_LIMIT: i64 = 100_000_000_000_000;

/// Speed cap: the largest representable speed magnitude (one million
/// meters per second; gravity integration saturates here).
pub const SPEED_LIMIT: i64 = 1_000_000_000;

/// Largest accepted tick duration (one thousand seconds).
pub const MAX_DT: i64 = 1_000_000;

/// Gravitational acceleration along the vertical axis, in thousandths of a
/// meter per second squared: -9.81 m/s^2.
pub const GRAVITY_ACCELERATION: i64 = -9810;

/// A drag coefficient of one per unit of length: `drag_factor` values are
/// billionths, so 180 stands for 0.00018 per meter.
pub const DRAG_ONE: i64 = 1_000_000_000;

/// Bound on the physics coefficients `drag_factor` and `rolling_resistance`.
pub const COEFF_LIMIT: i64 = 1_000_000;

/// Speeds of smaller magnitude are treated as rest by the friction step
/// (one thousandth of a meter per second).
pub const SPEED_EPSILON: i64 = 1;

/// `x` clamped into `[lo, hi]`.
pub open spec fn clamp_spec(x: int, lo: int, hi: int) -> int {
    if x < lo {
        lo
    } else if x > hi {
        hi
    } else {
        x
    }
}

/// `x` clamped into `[lo, hi]`.
pub fn clamp_i64(x: i64, lo: i64, hi: i64) -> (r: i64)
    requires
        lo <= hi,
    ensures
        r == clamp_spec(x as int, lo as int, hi as int),
{
    if x < lo {
        lo
    } else if x > hi {
        hi
    } else {
        x
    }
}

/// `|a * b| <= ab * bb` whenever `|a| <= ab` and `|b| <= bb`.
pub proof fn lemma_mul_abs_bound(a: int, b: int, ab: int, bb: int)
    by (nonlinear_arith)
    requires
        -ab <= a <= ab,
        -bb <= b <= bb,
    ensures
        -(ab * bb) <= a * b <= ab * bb,
{
}

/// A square is never negative.
pub proof fn lemma_square_nonneg(a: int)
    by (nonlinear_arith)
    ensures
        0 <= a * a,
{
}

/// Multiplying through by a positive factor keeps an upper bound:
/// `a <= b` gives `c * a <= c * b`.
pub proof fn lemma_mul_le_mono(a: int, b: int, c: int)
    by (nonlinear_arith)
    requires
        a <= b,
        0 <= c,
    ensures
        c * a <= c * b,
{
}

/// Floor division of `n` by a positive `d`; agrees with the Euclidean
/// division that spec-mode `/` denotes.
pub fn div_floor(n: i128, d: i128) -> (q: i128)
    requires
        1 <= d,
        i128::MIN < n,
    ensures
        q == n as int / d as int,
{
    if n >= 0 {
        let q = (n as u128) / (d as u128);
        q as i128
    } else {
        let m = (-n) as u128;
        let dd = d as u128;
        // Floor of a negative quotient is the negated ceiling of the
        // magnitudes: -((m - 1) / d + 1).
        let q1 = (m - 1) / dd;
        proof {
            lemma_fundamental_div_mod((m - 1) as int, d as int);
            let r = (m - 1) as int % d as int;
            assert(n as int == (-(q1 as int) - 1) * d as int + (d as int - r - 1))
                by (nonlinear_arith)
                requires
                    (m - 1) as int == d as int * (q1 as int) + r,
                    n as int == -(m as int),
                    m as int >= 1;
            lemma_fundamental_div_mod_converse(
                n as int,
                d as int,
                -(q1 as int) - 1,
                d as int - r - 1,
            );
        }
        -(q1 as i128) - 1
    }
}

/// Whether `r` is the integer square root (rounded down) of `x`.
pub open spec fn is_sqrt_floor(x: int, r: int) -> bool {
    &&& 0 <= r
    &&& r * r <= x
    &&& x < (r + 1) * (r + 1)
}

/// The integer square root of `x`, rounded down.
pub open spec fn sqrt_floor(x: nat) -> nat
    decreases x,
{
    if x == 0 {
        0
    } else {
        let r = sqrt_floor((x - 1) as nat);
        if (r + 1) * (r + 1) <= x {
            r + 1
        } else {
            r
        }
    }
}

/// `sqrt_floor` deserves its name: its square is at most `x` and the next
/// square is beyond `x`.
pub proof fn lemma_sqrt_floor_bounds(x: nat)
    ensures
        is_sqrt_floor(x as int, sqrt_floor(x) as int),
    decreases x,
{
    if x == 0 {
    } else {
        lemma_sqrt_floor_bounds((x - 1) as nat);
        let r = sqrt_floor((x - 1) as nat);
        if (r + 1) * (r + 1) <= x {
            assert(x == (r + 1) * (r + 1));
            assert((r + 1) * (r + 1) < (r + 2) * (r + 2)) by (nonlinear_arith)
                requires r >= 0;
        }
    }
}

/// The integer square root is unique, so any witness equals `sqrt_floor`.
pub proof fn lemma_sqrt_floor_is(x: nat, r: nat)
    requires
        is_sqrt_floor(x as int, r as int),
    ensures
        r == sqrt_floor(x),
{
    lemma_sqrt_floor_bounds(x);
    let s = sqrt_floor(x);
    if r < s {
        assert((r + 1) * (r + 1) <= s * s) by (nonlinear_arith)
            requires 0 <= r, r + 1 <= s;
    }
    if s < r {
        assert((s + 1) * (s + 1) <= r * r) by (nonlinear_arith)
            requires 0 <= s, s + 1 <= r;
    }
}

/// The integer square root of `x`, rounded down, by bisection.
pub fn isqrt(x: u128) -> (r: u64)
    requires
        x < 0x1_0000_0000_0000_0000_0000_0000,
    ensures
        r as nat == sqrt_floor(x as nat),
        is_sqrt_floor(x as int, r as int),
{
    let mut lo: u64 = 0;
    let mut hi: u64 = 0x1_0000_0000_0000;
    proof {
        assert((hi as int + 1) * (hi as int + 1) > x as int) by (nonlinear_arith)
            requires
                hi as int == 0x1_0000_0000_0000,
                (x as int) < 0x1_0000_0000_0000_0000_0000_0000;
    }
    while lo < hi
        invariant
            lo <= hi,
            hi <= 0x1_0000_0000_0000,
            (lo as int) * (lo as int) <= x as int,
            (x as int) < (hi as int + 1) * (hi as int + 1),
        decreases hi - lo,
    {
        let mid = lo + (hi - lo + 1) / 2;
        proof {
            lemma_mul_abs_bound(mid as int, mid as int, 0x1_0000_0000_0000, 0x1_0000_0000_0000);
        }
        if (mid as u128) * (mid as u128) <= x {
            lo = mid;
        } else {
            hi = mid - 1;
        }
    }
    proof {
        lemma_sqrt_floor_is(x as nat, lo as nat);
    }
    lo
}

} // verus!
