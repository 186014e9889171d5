//! Cubic Bezier evaluation and arc-length estimation.
//!
//! Positions are computed as the Bernstein-weighted sum of the four control
//! points.  With the parameter scaled to `[0, PARAM_ONE]`, the weights
//! `u*u*u`, `3*u*u*t`, `3*u*t*t` and `t*t*t` (where `u = PARAM_ONE - t`) sum
//! to `PARAM_ONE` cubed, so positions come out on the coordinate scale after
//! one floor division.

use vstd::prelude::*;
use vstd::arithmetic::div_mod::{lemma_div_is_ordered, lemma_div_multiples_vanish};
use crate::math::{
    clamp_i64, clamp_spec, div_floor, isqrt, lemma_mul_abs_bound, lemma_square_nonneg, sqrt_floor,
    CHORD_BOUND, EVAL_BOUND, LEN_LIMIT, MAX_COORD, MAX_SAMPLES, PARAM_ONE, PARAM_ONE_CUBED,
    PARAM_ONE_SQ, TAN_BOUND,
};
use crate::track::{CurvePoints, PathComponent};
use crate::vec3::{norm_sq, Vec3};

verus! {

/// A raw parameter clamped into the valid range `[0, PARAM_ONE]`.
pub open spec fn clamp_param(t: int) -> int {
    clamp_spec(t, 0, PARAM_ONE as int)
}

/// Numerator of the Bernstein position formula for one coordinate, on the
/// scale of `PARAM_ONE` cubed; `t` must already be clamped.
pub open spec fn bezier_num(c0: int, c1: int, c2: int, c3: int, t: int) -> int {
    let u = PARAM_ONE - t;
    u * u * u * c0 + 3 * (u * u) * t * c1 + 3 * u * (t * t) * c2 + t * t * t * c3
}

/// One coordinate of the Bezier position at clamped parameter `t`.
pub open spec fn bezier_coord(c0: int, c1: int, c2: int, c3: int, t: int) -> int {
    bezier_num(c0, c1, c2, c3, t) / (PARAM_ONE_CUBED as int)
}

/// Numerator of the derivative formula for one coordinate, on the scale of
/// `PARAM_ONE` squared; `t` must already be clamped.
pub open spec fn tangent_num(c0: int, c1: int, c2: int, c3: int, t: int) -> int {
    let u = PARAM_ONE - t;
    3 * (u * u) * (c1 - c0) + 6 * (u * t) * (c2 - c1) + 3 * (t * t) * (c3 - c2)
}

/// One coordinate of the raw (unnormalized) tangent at clamped parameter `t`.
pub open spec fn tangent_coord(c0: int, c1: int, c2: int, c3: int, t: int) -> int {
    tangent_num(c0, c1, c2, c3, t) / (PARAM_ONE_SQ as int)
}

/// The x coordinate of the curve position of `c` at parameter `t`.
pub open spec fn eval_pos_x(c: CurvePoints, t: int) -> int {
    bezier_coord(c.p0.x as int, c.p1.x as int, c.p2.x as int, c.p3.x as int, clamp_param(t))
}

/// The y coordinate of the curve position of `c` at parameter `t`.
pub open spec fn eval_pos_y(c: CurvePoints, t: int) -> int {
    bezier_coord(c.p0.y as int, c.p1.y as int, c.p2.y as int, c.p3.y as int, clamp_param(t))
}

/// The z coordinate of the curve position of `c` at parameter `t`.
pub open spec fn eval_pos_z(c: CurvePoints, t: int) -> int {
    bezier_coord(c.p0.z as int, c.p1.z as int, c.p2.z as int, c.p3.z as int, clamp_param(t))
}

/// The x coordinate of the raw tangent of `c` at parameter `t`.
pub open spec fn raw_tan_x(c: CurvePoints, t: int) -> int {
    tangent_coord(c.p0.x as int, c.p1.x as int, c.p2.x as int, c.p3.x as int, clamp_param(t))
}

/// The y coordinate of the raw tangent of `c` at parameter `t`.
pub open spec fn raw_tan_y(c: CurvePoints, t: int) -> int {
    tangent_coord(c.p0.y as int, c.p1.y as int, c.p2.y as int, c.p3.y as int, clamp_param(t))
}

/// The z coordinate of the raw tangent of `c` at parameter `t`.
pub open spec fn raw_tan_z(c: CurvePoints, t: int) -> int {
    tangent_coord(c.p0.z as int, c.p1.z as int, c.p2.z as int, c.p3.z as int, clamp_param(t))
}

/// Length of the raw tangent of `c` at parameter `t`, rounded down.
pub open spec fn tan_norm(c: CurvePoints, t: int) -> int {
    sqrt_floor(norm_sq(raw_tan_x(c, t), raw_tan_y(c, t), raw_tan_z(c, t)) as nat) as int
}

/// The x coordinate of the unit tangent of `c` at parameter `t`, on the
/// `PARAM_ONE` scale; the zero vector when the derivative degenerates.
pub open spec fn unit_tan_x(c: CurvePoints, t: int) -> int {
    if tan_norm(c, t) == 0 {
        0
    } else {
        raw_tan_x(c, t) * PARAM_ONE / tan_norm(c, t)
    }
}

/// The y coordinate of the unit tangent of `c` at parameter `t`.
pub open spec fn unit_tan_y(c: CurvePoints, t: int) -> int {
    if tan_norm(c, t) == 0 {
        0
    } else {
        raw_tan_y(c, t) * PARAM_ONE / tan_norm(c, t)
    }
}

/// The z coordinate of the unit tangent of `c` at parameter `t`.
pub open spec fn unit_tan_z(c: CurvePoints, t: int) -> int {
    if tan_norm(c, t) == 0 {
        0
    } else {
        raw_tan_z(c, t) * PARAM_ONE / tan_norm(c, t)
    }
}

/// One coordinate of the Bernstein position sum, computed exactly.
fn bezier_coord_exec(c0: i64, c1: i64, c2: i64, c3: i64, t: i64) -> (r: i64)
    requires
        -MAX_COORD <= c0 <= MAX_COORD,
        -MAX_COORD <= c1 <= MAX_COORD,
        -MAX_COORD <= c2 <= MAX_COORD,
        -MAX_COORD <= c3 <= MAX_COORD,
        0 <= t <= PARAM_ONE,
    ensures
        r == bezier_coord(c0 as int, c1 as int, c2 as int, c3 as int, t as int),
        -EVAL_BOUND <= r <= EVAL_BOUND,
{
    let u = PARAM_ONE - t;
    proof {
        lemma_mul_abs_bound(u as int, u as int, 1000, 1000);
        lemma_mul_abs_bound(t as int, t as int, 1000, 1000);
    }
    let uu = u * u;
    let tt = t * t;
    proof {
        lemma_mul_abs_bound(uu as int, u as int, 1_000_000, 1000);
        lemma_mul_abs_bound(3 * (uu as int), t as int, 3_000_000, 1000);
        lemma_mul_abs_bound(3 * (u as int), tt as int, 3000, 1_000_000);
        lemma_mul_abs_bound(tt as int, t as int, 1_000_000, 1000);
    }
    let w0 = uu * u;
    let w1 = (3 * uu) * t;
    let w2 = (3 * u) * tt;
    let w3 = tt * t;
    proof {
        lemma_mul_abs_bound(w0 as int, c0 as int, 3_000_000_000, MAX_COORD as int);
        lemma_mul_abs_bound(w1 as int, c1 as int, 3_000_000_000, MAX_COORD as int);
        lemma_mul_abs_bound(w2 as int, c2 as int, 3_000_000_000, MAX_COORD as int);
        lemma_mul_abs_bound(w3 as int, c3 as int, 3_000_000_000, MAX_COORD as int);
    }
    let num: i128 = (w0 as i128) * (c0 as i128) + (w1 as i128) * (c1 as i128) + (w2 as i128) * (
    c2 as i128) + (w3 as i128) * (c3 as i128);
    let q = div_floor(num, PARAM_ONE_CUBED as i128);
    proof {
        lemma_div_is_ordered(num as int, 12_000_000_000_000_000_000, PARAM_ONE_CUBED as int);
        lemma_div_is_ordered(-12_000_000_000_000_000_000, num as int, PARAM_ONE_CUBED as int);
    }
    q as i64
}

/// One coordinate of the raw derivative sum, computed exactly.
fn tangent_coord_exec(c0: i64, c1: i64, c2: i64, c3: i64, t: i64) -> (r: i64)
    requires
        -MAX_COORD <= c0 <= MAX_COORD,
        -MAX_COORD <= c1 <= MAX_COORD,
        -MAX_COORD <= c2 <= MAX_COORD,
        -MAX_COORD <= c3 <= MAX_COORD,
        0 <= t <= PARAM_ONE,
    ensures
        r == tangent_coord(c0 as int, c1 as int, c2 as int, c3 as int, t as int),
        -TAN_BOUND <= r <= TAN_BOUND,
{
    let u = PARAM_ONE - t;
    proof {
        lemma_mul_abs_bound(u as int, u as int, 1000, 1000);
        lemma_mul_abs_bound(u as int, t as int, 1000, 1000);
        lemma_mul_abs_bound(t as int, t as int, 1000, 1000);
    }
    let uu = u * u;
    let ut = u * t;
    let tt = t * t;
    let d0 = c1 - c0;
    let d1 = c2 - c1;
    let d2 = c3 - c2;
    proof {
        lemma_mul_abs_bound(3 * (uu as int), d0 as int, 3_000_000, 2 * MAX_COORD as int);
        lemma_mul_abs_bound(6 * (ut as int), d1 as int, 6_000_000, 2 * MAX_COORD as int);
        lemma_mul_abs_bound(3 * (tt as int), d2 as int, 3_000_000, 2 * MAX_COORD as int);
    }
    let num: i128 = ((3 * uu) as i128) * (d0 as i128) + ((6 * ut) as i128) * (d1 as i128) + ((3
        * tt) as i128) * (d2 as i128);
    let q = div_floor(num, PARAM_ONE_SQ as i128);
    proof {
        lemma_div_is_ordered(num as int, 24_000_000_000_000_000, PARAM_ONE_SQ as int);
        lemma_div_is_ordered(-24_000_000_000_000_000, num as int, PARAM_ONE_SQ as int);
    }
    q as i64
}

/// Evaluates the cubic Bezier curve of `path` at parameter `t` (clamped to
/// the valid range), returning the position and the unit tangent; the
/// tangent is the zero vector when the derivative degenerates.
pub fn evaluate_bezier(path: &PathComponent, t: i64) -> (r: (Vec3, Vec3))
    requires
        path.coords_bounded(),
    ensures
        r.0.x == eval_pos_x(path.curve(), t as int),
        r.0.y == eval_pos_y(path.curve(), t as int),
        r.0.z == eval_pos_z(path.curve(), t as int),
        r.0.in_range(EVAL_BOUND as int),
        r.1.x == unit_tan_x(path.curve(), t as int),
        r.1.y == unit_tan_y(path.curve(), t as int),
        r.1.z == unit_tan_z(path.curve(), t as int),
        r.1.in_range(PARAM_ONE as int),
{
    let t = clamp_i64(t, 0, PARAM_ONE);

    let p0 = path.start_anchor;
    let p1 = path.start_control_point;
    let p2 = path.end_control_point;
    let p3 = path.end_anchor;

    let position = Vec3 {
        x: bezier_coord_exec(p0.x, p1.x, p2.x, p3.x, t),
        y: bezier_coord_exec(p0.y, p1.y, p2.y, p3.y, t),
        z: bezier_coord_exec(p0.z, p1.z, p2.z, p3.z, t),
    };

    let tx = tangent_coord_exec(p0.x, p1.x, p2.x, p3.x, t);
    let ty = tangent_coord_exec(p0.y, p1.y, p2.y, p3.y, t);
    let tz = tangent_coord_exec(p0.z, p1.z, p2.z, p3.z, t);

    proof {
        lemma_mul_abs_bound(tx as int, tx as int, TAN_BOUND as int, TAN_BOUND as int);
        lemma_mul_abs_bound(ty as int, ty as int, TAN_BOUND as int, TAN_BOUND as int);
        lemma_mul_abs_bound(tz as int, tz as int, TAN_BOUND as int, TAN_BOUND as int);
        lemma_square_nonneg(tx as int);
        lemma_square_nonneg(ty as int);
        lemma_square_nonneg(tz as int);
    }
    let sq: i128 = (tx as i128) * (tx as i128) + (ty as i128) * (ty as i128) + (tz as i128) * (
    tz as i128);
    let norm = isqrt(sq as u128);

    let direction = if norm == 0 {
        Vec3 { x: 0, y: 0, z: 0 }
    } else {
        proof {
            assert(norm as int <= 2 * TAN_BOUND as int) by (nonlinear_arith)
                requires
                    (norm as int) * (norm as int) <= sq as int,
                    sq as int <= 4_800_000_000_000_000_000_000,
                    0 <= norm as int;
            component_within_norm(tx as int, norm as int, sq as int);
            component_within_norm(ty as int, norm as int, sq as int);
            component_within_norm(tz as int, norm as int, sq as int);
        }
        let dir_x = normalize_component(tx, norm);
        let dir_y = normalize_component(ty, norm);
        let dir_z = normalize_component(tz, norm);
        Vec3 { x: dir_x, y: dir_y, z: dir_z }
    };

    (position, direction)
}

/// `|c| <= norm` whenever `c*c` is one summand of `sq` and `norm` is the
/// rounded-down square root of `sq`.
proof fn component_within_norm(c: int, norm: int, sq: int)
    requires
        c * c <= sq,
        0 <= norm,
        sq < (norm + 1) * (norm + 1),
    ensures
        -norm <= c <= norm,
{
    assert(-norm <= c <= norm) by (nonlinear_arith)
        requires c * c <= sq, 0 <= norm, sq < (norm + 1) * (norm + 1);
}

/// One coordinate of the unit tangent: `c * PARAM_ONE / norm`, which stays
/// within `[-PARAM_ONE, PARAM_ONE]` because `|c| <= norm`.
fn normalize_component(c: i64, norm: u64) -> (r: i64)
    requires
        1 <= norm,
        -norm <= c <= norm,
        norm <= 2 * TAN_BOUND,
    ensures
        r == c as int * PARAM_ONE / norm as int,
        -PARAM_ONE <= r <= PARAM_ONE,
{
    proof {
        lemma_mul_abs_bound(c as int, PARAM_ONE as int, norm as int, PARAM_ONE as int);
        lemma_div_is_ordered(c as int * PARAM_ONE, norm as int * PARAM_ONE, norm as int);
        lemma_div_is_ordered(-(norm as int * PARAM_ONE), c as int * PARAM_ONE, norm as int);
        lemma_div_multiples_vanish(PARAM_ONE as int, norm as int);
        lemma_div_multiples_vanish(-PARAM_ONE as int, norm as int);
    }
    let q = div_floor((c as i128) * (PARAM_ONE as i128), norm as i128);
    q as i64
}

/// Unit tangent components never leave `[-PARAM_ONE, PARAM_ONE]`: each raw
/// component's magnitude is at most the tangent's norm.
pub proof fn lemma_unit_tangent_bounded(c: CurvePoints, t: int)
    ensures
        -PARAM_ONE <= unit_tan_x(c, t) <= PARAM_ONE,
        -PARAM_ONE <= unit_tan_y(c, t) <= PARAM_ONE,
        -PARAM_ONE <= unit_tan_z(c, t) <= PARAM_ONE,
{
    let norm = tan_norm(c, t);
    if norm != 0 {
        let tx = raw_tan_x(c, t);
        let ty = raw_tan_y(c, t);
        let tz = raw_tan_z(c, t);
        proof_unit_component_bound(tx, ty, tz, norm);
    }
}

/// Each raw tangent component, scaled by `PARAM_ONE` and divided by the
/// norm, stays within `[-PARAM_ONE, PARAM_ONE]`.
proof fn proof_unit_component_bound(tx: int, ty: int, tz: int, norm: int)
    requires
        norm == sqrt_floor(norm_sq(tx, ty, tz) as nat) as int,
        norm >= 1,
    ensures
        -PARAM_ONE <= tx * PARAM_ONE / norm <= PARAM_ONE,
        -PARAM_ONE <= ty * PARAM_ONE / norm <= PARAM_ONE,
        -PARAM_ONE <= tz * PARAM_ONE / norm <= PARAM_ONE,
{
    lemma_square_nonneg(tx);
    lemma_square_nonneg(ty);
    lemma_square_nonneg(tz);
    let sq = norm_sq(tx, ty, tz);
    crate::math::lemma_sqrt_floor_bounds(sq as nat);
    component_within_norm(tx, norm, sq);
    component_within_norm(ty, norm, sq);
    component_within_norm(tz, norm, sq);
    lemma_div_multiples_vanish(PARAM_ONE as int, norm);
    lemma_div_multiples_vanish(-PARAM_ONE as int, norm);
    crate::math::lemma_mul_le_mono(tx, norm, PARAM_ONE as int);
    lemma_div_is_ordered(tx * PARAM_ONE, norm * PARAM_ONE, norm);
    lemma_div_is_ordered(-(norm * PARAM_ONE), tx * PARAM_ONE, norm);
    lemma_div_is_ordered(ty * PARAM_ONE, norm * PARAM_ONE, norm);
    lemma_div_is_ordered(-(norm * PARAM_ONE), ty * PARAM_ONE, norm);
    lemma_div_is_ordered(tz * PARAM_ONE, norm * PARAM_ONE, norm);
    lemma_div_is_ordered(-(norm * PARAM_ONE), tz * PARAM_ONE, norm);
    lemma_mul_abs_bound(tx, PARAM_ONE as int, norm, PARAM_ONE as int);
    lemma_mul_abs_bound(ty, PARAM_ONE as int, norm, PARAM_ONE as int);
    lemma_mul_abs_bound(tz, PARAM_ONE as int, norm, PARAM_ONE as int);
}

/// The parameter of sample `i` out of `n`: `i/n` of the way along the curve,
/// on the `PARAM_ONE` scale.
pub open spec fn sample_param(i: int, n: int) -> int {
    i * (PARAM_ONE as int) / n
}

/// The chord distance between samples `i - 1` and `i` out of `n`.
pub open spec fn sample_chord(c: CurvePoints, i: int, n: int) -> int {
    sqrt_floor(
        norm_sq(
            eval_pos_x(c, sample_param(i - 1, n)) - eval_pos_x(c, sample_param(i, n)),
            eval_pos_y(c, sample_param(i - 1, n)) - eval_pos_y(c, sample_param(i, n)),
            eval_pos_z(c, sample_param(i - 1, n)) - eval_pos_z(c, sample_param(i, n)),
        ) as nat,
    ) as int
}

/// The cumulative chord distance from sample `0` up to sample `i` out of `n`.
pub open spec fn cum_dist(c: CurvePoints, i: int, n: int) -> int
    decreases i,
{
    if i <= 0 {
        0
    } else {
        cum_dist(c, i - 1, n) + sample_chord(c, i, n)
    }
}

/// Evaluating at the ends of the parameter range lands exactly on the two
/// anchor points.
pub proof fn lemma_evaluate_boundary(c: CurvePoints)
    ensures
        eval_pos_x(c, 0) == c.p0.x,
        eval_pos_y(c, 0) == c.p0.y,
        eval_pos_z(c, 0) == c.p0.z,
        eval_pos_x(c, PARAM_ONE as int) == c.p3.x,
        eval_pos_y(c, PARAM_ONE as int) == c.p3.y,
        eval_pos_z(c, PARAM_ONE as int) == c.p3.z,
{
    lemma_bernstein_endpoints(c.p0.x as int, c.p1.x as int, c.p2.x as int, c.p3.x as int);
    lemma_bernstein_endpoints(c.p0.y as int, c.p1.y as int, c.p2.y as int, c.p3.y as int);
    lemma_bernstein_endpoints(c.p0.z as int, c.p1.z as int, c.p2.z as int, c.p3.z as int);
    lemma_div_multiples_vanish(c.p0.x as int, PARAM_ONE_CUBED as int);
    lemma_div_multiples_vanish(c.p0.y as int, PARAM_ONE_CUBED as int);
    lemma_div_multiples_vanish(c.p0.z as int, PARAM_ONE_CUBED as int);
    lemma_div_multiples_vanish(c.p3.x as int, PARAM_ONE_CUBED as int);
    lemma_div_multiples_vanish(c.p3.y as int, PARAM_ONE_CUBED as int);
    lemma_div_multiples_vanish(c.p3.z as int, PARAM_ONE_CUBED as int);
}

/// At the ends of the parameter range the Bernstein sum collapses to a
/// single weighted anchor coordinate.
proof fn lemma_bernstein_endpoints(c0: int, c1: int, c2: int, c3: int)
    ensures
        bezier_num(c0, c1, c2, c3, 0) == (PARAM_ONE_CUBED as int) * c0,
        bezier_num(c0, c1, c2, c3, PARAM_ONE as int) == (PARAM_ONE_CUBED as int) * c3,
{
    let u0 = PARAM_ONE as int - 0;
    assert(u0 * u0 * u0 * c0 == 1_000_000_000 * c0) by (nonlinear_arith)
        requires u0 == 1000;
    assert(3 * (u0 * u0) * 0 * c1 == 0) by (nonlinear_arith);
    assert(3 * u0 * (0 * 0) * c2 == 0) by (nonlinear_arith);
    assert(0 * 0 * 0 * c3 == 0) by (nonlinear_arith);

    let t1 = PARAM_ONE as int;
    let u1 = PARAM_ONE as int - t1;
    assert(u1 * u1 * u1 * c0 == 0) by (nonlinear_arith)
        requires u1 == 0;
    assert(3 * (u1 * u1) * t1 * c1 == 0) by (nonlinear_arith)
        requires u1 == 0;
    assert(3 * u1 * (t1 * t1) * c2 == 0) by (nonlinear_arith)
        requires u1 == 0;
    assert(t1 * t1 * t1 * c3 == 1_000_000_000 * c3) by (nonlinear_arith)
        requires t1 == 1000;
}

/// Cumulative distances never decrease as the sample index grows.
proof fn lemma_cum_dist_mono(c: CurvePoints, i: int, j: int, n: int)
    requires
        0 <= i <= j,
    ensures
        cum_dist(c, i, n) <= cum_dist(c, j, n),
    decreases j,
{
    if i < j {
        lemma_cum_dist_mono(c, i, j - 1, n);
    }
}

/// Arc-length tables are monotone: both the cumulative distances and the
/// sampled parameters are non-decreasing in the sample index, parameters
/// stay within the valid range, and the samples start at distance zero and
/// parameter zero and end at parameter one.
pub proof fn lemma_table_monotonic(c: CurvePoints, n: int)
    requires
        1 <= n,
    ensures
        forall|i: int, j: int|
            0 <= i <= j ==> #[trigger] cum_dist(c, i, n) <= #[trigger] cum_dist(c, j, n),
        forall|i: int, j: int|
            0 <= i <= j ==> #[trigger] sample_param(i, n) <= #[trigger] sample_param(j, n),
        forall|i: int| 0 <= i ==> 0 <= #[trigger] cum_dist(c, i, n),
        forall|i: int| 0 <= i ==> 0 <= #[trigger] sample_param(i, n),
        forall|i: int| 0 <= i <= n ==> #[trigger] sample_param(i, n) <= PARAM_ONE,
        sample_param(0, n) == 0,
        sample_param(n, n) == PARAM_ONE,
{
    assert forall|i: int, j: int| 0 <= i <= j implies #[trigger] cum_dist(c, i, n)
        <= #[trigger] cum_dist(c, j, n) by {
        lemma_cum_dist_mono(c, i, j, n);
    }
    assert forall|i: int, j: int| 0 <= i <= j implies #[trigger] sample_param(i, n)
        <= #[trigger] sample_param(j, n) by {
        lemma_div_is_ordered(i * (PARAM_ONE as int), j * (PARAM_ONE as int), n);
    }
    assert forall|i: int| 0 <= i implies 0 <= #[trigger] cum_dist(c, i, n) by {
        lemma_cum_dist_mono(c, 0, i, n);
    }
    lemma_div_multiples_vanish(PARAM_ONE as int, n);
    assert forall|i: int| 0 <= i <= n implies #[trigger] sample_param(i, n) <= PARAM_ONE by {
        lemma_div_is_ordered(i * (PARAM_ONE as int), n * (PARAM_ONE as int), n);
    }
    assert forall|i: int| 0 <= i implies 0 <= #[trigger] sample_param(i, n) by {
        lemma_div_is_ordered(0, i * (PARAM_ONE as int), n);
    }
}

/// The sampled parameter for step `i` of `n`, as a fixed-point value.
fn compute_progress(i: u32, n: u32) -> (r: i64)
    requires
        1 <= n <= MAX_SAMPLES,
        i <= n,
    ensures
        r == sample_param(i as int, n as int),
        0 <= r <= PARAM_ONE,
{
    proof {
        lemma_div_is_ordered(0, i as int * (PARAM_ONE as int), n as int);
        lemma_div_is_ordered(
            i as int * (PARAM_ONE as int),
            n as int * (PARAM_ONE as int),
            n as int,
        );
        lemma_div_multiples_vanish(PARAM_ONE as int, n as int);
    }
    (((i as u64) * (PARAM_ONE as u64)) / (n as u64)) as i64
}

/// Total arc length of the curve of `path`, estimated as the sum of the
/// chord distances between `num_segments + 1` uniformly spaced samples.
pub fn estimate_curve_length(path: &PathComponent, num_segments: u32) -> (r: i64)
    requires
        path.coords_bounded(),
        1 <= num_segments <= MAX_SAMPLES,
    ensures
        r == cum_dist(path.curve(), num_segments as int, num_segments as int),
        0 <= r <= LEN_LIMIT,
{
    let n = num_segments;
    let mut total_length: i64 = 0;

    // Get the starting point of the curve (at parameter zero).
    let (mut previous_point, _) = evaluate_bezier(path, 0);

    let mut i: u32 = 1;
    while i <= n
        invariant
            1 <= i <= n + 1,
            1 <= n <= MAX_SAMPLES,
            path.coords_bounded(),
            total_length == cum_dist(path.curve(), i - 1, n as int),
            0 <= total_length <= (i - 1) * CHORD_BOUND,
            previous_point.x == eval_pos_x(path.curve(), sample_param(i - 1, n as int)),
            previous_point.y == eval_pos_y(path.curve(), sample_param(i - 1, n as int)),
            previous_point.z == eval_pos_z(path.curve(), sample_param(i - 1, n as int)),
            previous_point.in_range(EVAL_BOUND as int),
        decreases n + 1 - i,
    {
        let progress = compute_progress(i, n);
        let (current_point, _) = evaluate_bezier(path, progress);

        let step = previous_point.distance(&current_point);
        proof {
            assert(step == sample_chord(path.curve(), i as int, n as int));
        }
        total_length = total_length + step;

        previous_point = current_point;
        i = i + 1;
    }
    total_length
}

/// Builds the arc-length table of `path`: entry `i` holds the cumulative
/// chord distance up to sample `i` and the parameter of that sample.
pub fn build_arc_length_table(path: &PathComponent, num_segments: u32) -> (table: Vec<(i64, i64)>)
    requires
        path.coords_bounded(),
        1 <= num_segments <= MAX_SAMPLES,
    ensures
        table@.len() == num_segments + 1,
        forall|i: int|
            0 <= i <= num_segments ==> (#[trigger] table@[i]).0 == cum_dist(
                path.curve(),
                i,
                num_segments as int,
            ),
        forall|i: int|
            0 <= i <= num_segments ==> (#[trigger] table@[i]).1 == sample_param(
                i,
                num_segments as int,
            ),
        crate::track::table_wf(table@),
{
    let n = num_segments;
    let mut table: Vec<(i64, i64)> = Vec::new();
    let mut cumulative_distance: i64 = 0;

    // Add the starting point of the curve: at distance zero, parameter zero.
    let (mut previous_point, _) = evaluate_bezier(path, 0);
    table.push((0, 0));
    proof {
        lemma_table_monotonic(path.curve(), n as int);
    }

    let mut i: u32 = 1;
    while i <= n
        invariant
            1 <= i <= n + 1,
            1 <= n <= MAX_SAMPLES,
            path.coords_bounded(),
            table@.len() == i,
            forall|j: int|
                0 <= j < i ==> (#[trigger] table@[j]).0 == cum_dist(path.curve(), j, n as int),
            forall|j: int|
                0 <= j < i ==> (#[trigger] table@[j]).1 == sample_param(j, n as int),
            cumulative_distance == cum_dist(path.curve(), i - 1, n as int),
            0 <= cumulative_distance <= (i - 1) * CHORD_BOUND,
            previous_point.x == eval_pos_x(path.curve(), sample_param(i - 1, n as int)),
            previous_point.y == eval_pos_y(path.curve(), sample_param(i - 1, n as int)),
            previous_point.z == eval_pos_z(path.curve(), sample_param(i - 1, n as int)),
            previous_point.in_range(EVAL_BOUND as int),
        decreases n + 1 - i,
    {
        let progress = compute_progress(i, n);
        let (current_point, _) = evaluate_bezier(path, progress);

        let step = previous_point.distance(&current_point);
        proof {
            assert(step == sample_chord(path.curve(), i as int, n as int));
        }
        cumulative_distance = cumulative_distance + step;
        table.push((cumulative_distance, progress));

        previous_point = current_point;
        i = i + 1;
    }
    proof {
        lemma_table_monotonic(path.curve(), n as int);
        assert forall|a: int, b: int| 0 <= a <= b < table@.len() implies (#[trigger] table@[a]).0
            <= (#[trigger] table@[b]).0 by {
            lemma_cum_dist_mono(path.curve(), a, b, n as int);
        }
        assert forall|a: int| 0 <= a < table@.len() implies 0 <= (#[trigger] table@[a]).0
            <= LEN_LIMIT by {
            lemma_cum_dist_mono(path.curve(), a, n as int, n as int);
        }
    }
    table
}

} // verus!
