//! The per-tick physics pipeline: gravity, friction and movement, in that
//! order, for every vehicle on the track graph.

use vstd::prelude::*;
use vstd::arithmetic::div_mod::{lemma_div_is_ordered, lemma_div_pos_is_pos};
use crate::math::{
    clamp_i64, clamp_spec, div_floor, lemma_mul_abs_bound, COEFF_LIMIT, DIST_LIMIT, DRAG_ONE,
    GRAVITY_ACCELERATION, LEN_LIMIT, MAX_DT, PARAM_ONE, SPEED_EPSILON, SPEED_LIMIT, TIME_ONE,
};
use crate::track::{t_for_distance, TrackGraph};
use crate::utils::{
    eval_pos_x, eval_pos_y, eval_pos_z, evaluate_bezier, lemma_unit_tangent_bounded, unit_tan_x,
    unit_tan_y, unit_tan_z,
};
use crate::vec3::Vec3;

verus! {

/// Where a vehicle stands on the track graph: the piece it currently rides,
/// by index, and its signed distance from that piece's start anchor.
#[derive(Clone, Copy, PartialEq, Eq, Structural, Debug)]
pub struct TrackPosition {
    pub track: usize,
    pub distance_on_piece: i64,
}

/// A vehicle's scalar speed along the track, in thousandths of a meter per
/// second; positive means travel toward the "next" direction.
#[derive(Clone, Copy, PartialEq, Eq, Structural, Debug)]
pub struct LinearVelocity {
    pub speed: i64,
}

/// Per-vehicle physics coefficients: `drag_factor` is the quadratic
/// aerodynamic coefficient (on the `DRAG_ONE` scale), `rolling_resistance`
/// the constant deceleration (in thousandths of a meter per second squared).
/// Both oppose motion whatever its direction.
#[derive(Clone, Copy, PartialEq, Eq, Structural, Debug)]
pub struct TrainPhysics {
    pub drag_factor: i64,
    pub rolling_resistance: i64,
}

impl TrainPhysics {
    /// Coefficients are non-negative and within the supported range.
    pub open spec fn wf(self) -> bool {
        &&& 0 <= self.drag_factor <= COEFF_LIMIT
        &&& 0 <= self.rolling_resistance <= COEFF_LIMIT
    }
}

impl Default for TrainPhysics {
    /// The reference coefficients: a drag factor of 0.00018 and a rolling
    /// resistance of 0.25 meters per second squared.
    fn default() -> (d: Self)
        ensures
            d.drag_factor == 180,
            d.rolling_resistance == 250,
            d.wf(),
    {
        Self { drag_factor: 180, rolling_resistance: 250 }
    }
}

/// A vehicle's pose in the world: its position and the direction it faces.
#[derive(Clone, Copy, PartialEq, Eq, Structural, Debug)]
pub struct Pose {
    pub position: Vec3,
    pub forward: Vec3,
}

/// One simulated vehicle: its place on the graph, its velocity, its physics
/// coefficients, and the world pose the last movement step computed.
#[derive(Clone, Copy, PartialEq, Eq, Structural, Debug)]
pub struct Car {
    pub position: TrackPosition,
    pub velocity: LinearVelocity,
    pub physics: TrainPhysics,
    pub pose: Pose,
}

impl Car {
    /// The scalar state is within the representable range.
    pub open spec fn wf(self) -> bool {
        &&& -SPEED_LIMIT <= self.velocity.speed <= SPEED_LIMIT
        &&& -DIST_LIMIT <= self.position.distance_on_piece <= DIST_LIMIT
        &&& self.physics.wf()
    }
}

/// The coarse progress ratio that gravity samples the slope at: distance
/// over piece length, clamped into the parameter range.  A piece shorter
/// than one unit is treated as already arrived rather than divided by.
pub open spec fn progress_ratio(d: int, len: int) -> int {
    if len < 1 {
        PARAM_ONE as int
    } else {
        clamp_spec(d * (PARAM_ONE as int) / len, 0, PARAM_ONE as int)
    }
}

/// The speed change gravity contributes over `dt`: the gravitational
/// acceleration scaled by the vertical component of the unit tangent,
/// integrated over the tick.
pub open spec fn gravity_delta(ty: int, dt: int) -> int {
    (GRAVITY_ACCELERATION as int) * ty * dt / ((PARAM_ONE as int) * (TIME_ONE as int))
}

/// The speed a car leaves the gravity step with: unchanged when its track
/// reference dangles, otherwise integrated along the local slope and
/// saturated at the speed cap.
pub open spec fn gravity_speed(g: TrackGraph, car: Car, dt: int) -> int {
    if !g.valid_index(car.position.track as int) {
        car.velocity.speed as int
    } else {
        let piece = g.pieces@[car.position.track as int].path;
        let t = progress_ratio(
            car.position.distance_on_piece as int,
            piece.length_meters as int,
        );
        let ty = unit_tan_y(piece.curve(), t);
        clamp_spec(
            car.velocity.speed + gravity_delta(ty, dt),
            -SPEED_LIMIT as int,
            SPEED_LIMIT as int,
        )
    }
}

/// The coarse progress ratio, computed exactly.
fn progress_for_gravity(d: i64, len: i64) -> (r: i64)
    requires
        -2 * DIST_LIMIT <= d <= 2 * DIST_LIMIT,
        len <= LEN_LIMIT,
    ensures
        r == progress_ratio(d as int, len as int),
        0 <= r <= PARAM_ONE,
{
    if len < 1 {
        return PARAM_ONE;
    }
    if d <= 0 {
        proof {
            lemma_div_is_ordered(d as int * (PARAM_ONE as int), 0, len as int);
        }
        return 0;
    }
    let scaled = (d as u64) * (PARAM_ONE as u64);
    let q = scaled / (len as u64);
    proof {
        lemma_div_is_ordered(0, d as int * (PARAM_ONE as int), len as int);
        lemma_div_is_ordered(
            d as int * (PARAM_ONE as int),
            200_000_000_000_000_000,
            len as int,
        );
    }
    clamp_i64(q as i64, 0, PARAM_ONE)
}

/// The gravity contribution to speed over `dt`, computed exactly.
fn gravity_delta_exec(ty: i64, dt: i64) -> (r: i64)
    requires
        -PARAM_ONE <= ty <= PARAM_ONE,
        0 <= dt <= MAX_DT,
    ensures
        r == gravity_delta(ty as int, dt as int),
        -10_000_000 <= r <= 10_000_000,
{
    proof {
        lemma_mul_abs_bound(GRAVITY_ACCELERATION as int, ty as int, 9810, PARAM_ONE as int);
        lemma_mul_abs_bound(
            (GRAVITY_ACCELERATION as int) * (ty as int),
            dt as int,
            9_810_000,
            MAX_DT as int,
        );
    }
    let num = ((GRAVITY_ACCELERATION as i128) * (ty as i128)) * (dt as i128);
    let q = div_floor(num, 1_000_000);
    proof {
        lemma_div_is_ordered(num as int, 9_810_000_000_000, 1_000_000);
        lemma_div_is_ordered(-9_810_000_000_000, num as int, 1_000_000);
    }
    q as i64
}

/// One gravity step for one vehicle: sample the track's slope at the coarse
/// progress ratio and integrate the along-track acceleration into the speed.
/// A dangling track reference leaves the vehicle untouched.
pub fn gravity_step(g: &TrackGraph, car: &mut Car, dt: i64)
    requires
        g.wf(),
        old(car).wf(),
        0 <= dt <= MAX_DT,
    ensures
        final(car).velocity.speed == gravity_speed(*g, *old(car), dt as int),
        final(car).position == old(car).position,
        final(car).physics == old(car).physics,
        final(car).pose == old(car).pose,
        final(car).wf(),
{
    let track_idx = car.position.track;
    if track_idx >= g.pieces.len() {
        return;
    }
    let piece = &g.pieces[track_idx].path;
    let progress = progress_for_gravity(car.position.distance_on_piece, piece.length_meters);
    let (_, tangent) = evaluate_bezier(piece, progress);
    let delta = gravity_delta_exec(tangent.y, dt);
    car.velocity.speed = clamp_i64(car.velocity.speed + delta, -SPEED_LIMIT, SPEED_LIMIT);
}

/// The total speed reduction friction asks for over `dt`: the quadratic
/// drag term plus the constant rolling term, both non-directional.
pub open spec fn friction_reduction(ph: TrainPhysics, speed: int, dt: int) -> int {
    let drag_deceleration = ph.drag_factor * (speed * speed) / (DRAG_ONE as int);
    let drag_speed_reduction = drag_deceleration * dt / (TIME_ONE as int);
    let rolling_speed_reduction = ph.rolling_resistance * dt / (TIME_ONE as int);
    drag_speed_reduction + rolling_speed_reduction
}

/// The speed a vehicle leaves the friction step with: unchanged below the
/// at-rest threshold; otherwise reduced in magnitude by the friction
/// reduction, clamped at exactly zero rather than crossing the sign.
pub open spec fn friction_speed(ph: TrainPhysics, speed: int, dt: int) -> int {
    if -SPEED_EPSILON < speed < SPEED_EPSILON {
        speed
    } else {
        let reduction = friction_reduction(ph, speed, dt);
        if speed > 0 {
            if reduction >= speed {
                0
            } else {
                speed - reduction
            }
        } else {
            if reduction >= -speed {
                0
            } else {
                speed + reduction
            }
        }
    }
}

/// One friction step for one vehicle: rolling resistance and quadratic drag
/// oppose the motion, and a reduction that would flip the sign of the speed
/// stops the vehicle exactly.
pub fn friction_step(car: &mut Car, dt: i64)
    requires
        old(car).wf(),
        0 <= dt <= MAX_DT,
    ensures
        final(car).velocity.speed == friction_speed(
            old(car).physics,
            old(car).velocity.speed as int,
            dt as int,
        ),
        final(car).position == old(car).position,
        final(car).physics == old(car).physics,
        final(car).pose == old(car).pose,
        final(car).wf(),
{
    let initial_speed = car.velocity.speed;
    if initial_speed > -SPEED_EPSILON && initial_speed < SPEED_EPSILON {
        return;
    }
    let speed_abs: u64 = if initial_speed >= 0 {
        initial_speed as u64
    } else {
        (-initial_speed) as u64
    };
    proof {
        assert((initial_speed as int) * (initial_speed as int) == (speed_abs as int) * (
        speed_abs as int)) by (nonlinear_arith)
            requires
                speed_abs as int == initial_speed as int || speed_abs as int == -(
                initial_speed as int);
        lemma_mul_abs_bound(speed_abs as int, speed_abs as int, SPEED_LIMIT as int, SPEED_LIMIT as int);
        lemma_mul_abs_bound(
            car.physics.drag_factor as int,
            (speed_abs as int) * (speed_abs as int),
            COEFF_LIMIT as int,
            1_000_000_000_000_000_000,
        );
    }
    let speed_sq = (speed_abs as u128) * (speed_abs as u128);
    let drag_deceleration = (car.physics.drag_factor as u128) * speed_sq / (DRAG_ONE as u128);
    proof {
        lemma_div_is_ordered(
            0,
            (car.physics.drag_factor as int) * ((speed_abs as int) * (speed_abs as int)),
            DRAG_ONE as int,
        );
        lemma_div_is_ordered(
            (car.physics.drag_factor as int) * ((speed_abs as int) * (speed_abs as int)),
            1_000_000_000_000_000_000_000_000,
            DRAG_ONE as int,
        );
        lemma_mul_abs_bound(
            drag_deceleration as int,
            dt as int,
            1_000_000_000_000_000_000,
            MAX_DT as int,
        );
        lemma_div_is_ordered(0, (drag_deceleration as int) * (dt as int), TIME_ONE as int);
        lemma_mul_abs_bound(
            car.physics.rolling_resistance as int,
            dt as int,
            COEFF_LIMIT as int,
            MAX_DT as int,
        );
        lemma_div_is_ordered(0, (car.physics.rolling_resistance as int) * (dt as int), TIME_ONE as int);
    }
    let drag_speed_reduction = drag_deceleration * (dt as u128) / (TIME_ONE as u128);
    let rolling_speed_reduction = (car.physics.rolling_resistance as u128) * (dt as u128) / (
    TIME_ONE as u128);
    let total_reduction = drag_speed_reduction + rolling_speed_reduction;

    if total_reduction >= (speed_abs as u128) {
        car.velocity.speed = 0;
    } else if initial_speed > 0 {
        car.velocity.speed = initial_speed - (total_reduction as i64);
    } else {
        car.velocity.speed = initial_speed + (total_reduction as i64);
    }
}

/// Friction never accelerates and never reverses: the new speed keeps the
/// old sign (or is zero) and its magnitude never grows.
pub proof fn lemma_friction_decelerates(ph: TrainPhysics, speed: int, dt: int)
    requires
        ph.wf(),
        0 <= dt,
        -SPEED_LIMIT <= speed <= SPEED_LIMIT,
    ensures
        speed >= 0 ==> 0 <= friction_speed(ph, speed, dt) <= speed,
        speed <= 0 ==> speed <= friction_speed(ph, speed, dt) <= 0,
{
    lemma_friction_reduction_nonneg(ph, speed, dt);
}

/// The friction reduction is never negative: both of its terms are products
/// and quotients of non-negative quantities.
pub proof fn lemma_friction_reduction_nonneg(ph: TrainPhysics, speed: int, dt: int)
    requires
        ph.wf(),
        0 <= dt,
    ensures
        0 <= friction_reduction(ph, speed, dt),
{
    crate::math::lemma_square_nonneg(speed);
    vstd::arithmetic::mul::lemma_mul_nonnegative(ph.drag_factor as int, speed * speed);
    lemma_div_pos_is_pos(ph.drag_factor * (speed * speed), DRAG_ONE as int);
    vstd::arithmetic::mul::lemma_mul_nonnegative(
        ph.drag_factor * (speed * speed) / (DRAG_ONE as int),
        dt,
    );
    lemma_div_pos_is_pos(
        (ph.drag_factor * (speed * speed) / (DRAG_ONE as int)) * dt,
        TIME_ONE as int,
    );
    vstd::arithmetic::mul::lemma_mul_nonnegative(ph.rolling_resistance as int, dt);
    lemma_div_pos_is_pos(ph.rolling_resistance * dt, TIME_ONE as int);
}

/// A friction reduction at least as large as the speed's magnitude brings
/// the vehicle exactly to rest: the speed never crosses zero into reverse.
pub proof fn lemma_friction_stops(ph: TrainPhysics, speed: int, dt: int)
    requires
        speed >= SPEED_EPSILON || speed <= -SPEED_EPSILON,
        friction_reduction(ph, speed, dt) >= (if speed >= 0 { speed } else { -speed }),
    ensures
        friction_speed(ph, speed, dt) == 0,
{
}

/// Gravity's sign convention: on a climbing slope (positive vertical tangent
/// component) a stationary vehicle starts rolling backward; on a descending
/// slope steep and long enough to overcome rounding it starts rolling
/// forward.
pub proof fn lemma_gravity_sign(g: TrackGraph, car: Car, dt: int)
    requires
        g.wf(),
        g.valid_index(car.position.track as int),
        car.wf(),
        car.velocity.speed == 0,
        1 <= dt <= MAX_DT,
    ensures
        unit_tan_y(
            g.pieces@[car.position.track as int].path.curve(),
            progress_ratio(
                car.position.distance_on_piece as int,
                g.piece_len(car.position.track as int),
            ),
        ) >= 1 ==> gravity_speed(g, car, dt) < 0,
        unit_tan_y(
            g.pieces@[car.position.track as int].path.curve(),
            progress_ratio(
                car.position.distance_on_piece as int,
                g.piece_len(car.position.track as int),
            ),
        ) * dt <= -102 ==> gravity_speed(g, car, dt) > 0,
{
    let piece = g.pieces@[car.position.track as int].path;
    let t = progress_ratio(car.position.distance_on_piece as int, piece.length_meters as int);
    let ty = unit_tan_y(piece.curve(), t);
    lemma_unit_tangent_bounded(piece.curve(), t);
    lemma_mul_abs_bound(GRAVITY_ACCELERATION as int, ty, 9810, PARAM_ONE as int);
    lemma_mul_abs_bound((GRAVITY_ACCELERATION as int) * ty, dt, 9_810_000, MAX_DT as int);
    if ty >= 1 {
        assert((GRAVITY_ACCELERATION as int) * ty * dt <= -9810) by (nonlinear_arith)
            requires ty >= 1, dt >= 1, GRAVITY_ACCELERATION as int == -9810;
        lemma_div_is_ordered(
            (GRAVITY_ACCELERATION as int) * ty * dt,
            -9810,
            (PARAM_ONE as int) * (TIME_ONE as int),
        );
        lemma_div_is_ordered(
            -9_810_000_000_000,
            (GRAVITY_ACCELERATION as int) * ty * dt,
            (PARAM_ONE as int) * (TIME_ONE as int),
        );
    }
    if ty * dt <= -102 {
        assert((GRAVITY_ACCELERATION as int) * ty * dt >= 1_000_620) by (nonlinear_arith)
            requires ty * dt <= -102, GRAVITY_ACCELERATION as int == -9810;
        lemma_div_is_ordered(
            1_000_620,
            (GRAVITY_ACCELERATION as int) * ty * dt,
            (PARAM_ONE as int) * (TIME_ONE as int),
        );
        lemma_div_is_ordered(
            (GRAVITY_ACCELERATION as int) * ty * dt,
            9_810_000_000_000,
            (PARAM_ONE as int) * (TIME_ONE as int),
        );
    }
}


/// The distance a vehicle advances over `dt` at `speed`.
pub open spec fn movement_delta(speed: int, dt: int) -> int {
    speed * dt / (TIME_ONE as int)
}

/// Resolves forward boundary crossings: while the distance reaches past the
/// current piece, move to the next piece and carry the leftover distance; at
/// a dead end, clamp to the piece's end and stop the vehicle.  `None` when a
/// forward link points outside the graph, which abandons the tick's update.
pub open spec fn resolve_overflow(g: TrackGraph, seg: int, d: int, speed: int) -> Option<
    (int, int, int),
>
    decreases d,
        when g.positive_lengths() && g.valid_index(seg)
{
    if d < g.piece_len(seg) {
        Some((seg, d, speed))
    } else {
        match g.next_of(seg) {
            Option::None => Some((seg, g.piece_len(seg), 0int)),
            Option::Some(next_track) => {
                if g.valid_index(next_track as int) {
                    resolve_overflow(g, next_track as int, d - g.piece_len(seg), speed)
                } else {
                    None
                }
            },
        }
    }
}

/// Resolves backward boundary crossings: while the distance is negative,
/// move to the previous piece and add its length; with no previous link,
/// clamp to the piece's start and stop the vehicle.  `None` when a backward
/// link points outside the graph.
pub open spec fn resolve_underflow(g: TrackGraph, seg: int, d: int, speed: int) -> Option<
    (int, int, int),
>
    decreases (if d < 0 { 0 - d } else { 0 }),
        when g.positive_lengths() && g.valid_index(seg)
{
    if d >= 0 {
        Some((seg, d, speed))
    } else {
        match g.prev_of(seg) {
            Option::None => Some((seg, 0, 0)),
            Option::Some(prev_track) => {
                if g.valid_index(prev_track as int) {
                    resolve_underflow(
                        g,
                        prev_track as int,
                        d + g.piece_len(prev_track as int),
                        speed,
                    )
                } else {
                    None
                }
            },
        }
    }
}

/// The car that the movement step hands back once traversal has settled on
/// piece `seg` at distance `d` with speed `speed`: position and speed are
/// written back, the world pose is evaluated at the arc-length-corrected
/// parameter, and the facing follows the tangent, reversed when moving
/// backward and left unchanged when the tangent degenerates.
pub open spec fn finish_movement(g: TrackGraph, car: Car, seg: int, d: int, speed: int) -> Car {
    let piece = g.pieces@[seg].path;
    let t = t_for_distance(piece.arc_length_table@, d);
    let world = Vec3 {
        x: eval_pos_x(piece.curve(), t) as i64,
        y: eval_pos_y(piece.curve(), t) as i64,
        z: eval_pos_z(piece.curve(), t) as i64,
    };
    let fx = if speed < 0 {
        -unit_tan_x(piece.curve(), t)
    } else {
        unit_tan_x(piece.curve(), t)
    };
    let fy = if speed < 0 {
        -unit_tan_y(piece.curve(), t)
    } else {
        unit_tan_y(piece.curve(), t)
    };
    let fz = if speed < 0 {
        -unit_tan_z(piece.curve(), t)
    } else {
        unit_tan_z(piece.curve(), t)
    };
    let facing = Vec3 { x: fx as i64, y: fy as i64, z: fz as i64 };
    Car {
        position: TrackPosition { track: seg as usize, distance_on_piece: d as i64 },
        velocity: LinearVelocity { speed: speed as i64 },
        physics: car.physics,
        pose: Pose {
            position: world,
            forward: if facing.is_zero() {
                car.pose.forward
            } else {
                facing
            },
        },
    }
}

/// The car a movement step leaves behind: unchanged when its track reference
/// dangles or a traversed link dangles (the update is abandoned and retried
/// next tick); otherwise advanced by `speed * dt`, carried across piece
/// boundaries, and given its new world pose.
pub open spec fn movement_result(g: TrackGraph, car: Car, dt: int) -> Car {
    if !g.valid_index(car.position.track as int) {
        car
    } else {
        let d1 = car.position.distance_on_piece + movement_delta(car.velocity.speed as int, dt);
        match resolve_overflow(g, car.position.track as int, d1, car.velocity.speed as int) {
            Option::None => car,
            Option::Some(over) => match resolve_underflow(g, over.0, over.1, over.2) {
                Option::None => car,
                Option::Some(under) => finish_movement(g, car, under.0, under.1, under.2),
            },
        }
    }
}

/// The signed distance travelled in one tick, computed exactly.
fn movement_delta_exec(speed: i64, dt: i64) -> (r: i64)
    requires
        -SPEED_LIMIT <= speed <= SPEED_LIMIT,
        0 <= dt <= MAX_DT,
    ensures
        r == movement_delta(speed as int, dt as int),
        -1_000_000_000_000 <= r <= 1_000_000_000_000,
{
    proof {
        lemma_mul_abs_bound(speed as int, dt as int, SPEED_LIMIT as int, MAX_DT as int);
        lemma_div_is_ordered(speed as int * (dt as int), 1_000_000_000_000_000, TIME_ONE as int);
        lemma_div_is_ordered(-1_000_000_000_000_000, speed as int * (dt as int), TIME_ONE as int);
    }
    div_floor((speed as i128) * (dt as i128), TIME_ONE as i128) as i64
}

/// One movement step for one vehicle: integrate the position, resolve any
/// boundary crossings forward or backward, and recompute the world pose at
/// the arc-length-corrected parameter.  A dangling reference anywhere
/// abandons the update, leaving the vehicle as it was.
pub fn car_movement_step(g: &TrackGraph, car: &mut Car, dt: i64)
    requires
        g.wf(),
        g.positive_lengths(),
        old(car).wf(),
        0 <= dt <= MAX_DT,
    ensures
        *final(car) == movement_result(*g, *old(car), dt as int),
        final(car).wf(),
{
    let track_idx = car.position.track;
    if track_idx >= g.pieces.len() {
        return;
    }

    let delta = movement_delta_exec(car.velocity.speed, dt);
    let mut seg = track_idx;
    let mut d = car.position.distance_on_piece + delta;
    let mut speed = car.velocity.speed;
    let mut dangling = false;
    let ghost target_over = resolve_overflow(*g, seg as int, d as int, speed as int);

    loop
        invariant_except_break
            g.wf(),
            g.positive_lengths(),
            g.valid_index(seg as int),
            -2 * DIST_LIMIT <= d <= 2 * DIST_LIMIT,
            -SPEED_LIMIT <= speed <= SPEED_LIMIT,
            !dangling,
            resolve_overflow(*g, seg as int, d as int, speed as int) == target_over,
        ensures
            !dangling ==> g.valid_index(seg as int),
            !dangling ==> target_over == Some((seg as int, d as int, speed as int)),
            !dangling ==> -2 * DIST_LIMIT <= d <= LEN_LIMIT,
            !dangling ==> -SPEED_LIMIT <= speed <= SPEED_LIMIT,
            dangling ==> target_over is None,
        decreases d,
    {
        proof {
            assert(g.piece_len(seg as int) >= 1);
        }
        let len = g.pieces[seg].path.length_meters;
        if d < len {
            break;
        }
        match g.pieces[seg].connection.next {
            None => {
                d = len;
                speed = 0;
                break;
            },
            Some(next_track) => {
                if next_track < g.pieces.len() {
                    d = d - len;
                    seg = next_track;
                } else {
                    dangling = true;
                    break;
                }
            },
        }
    }
    if dangling {
        return;
    }

    let ghost target_under = resolve_underflow(*g, seg as int, d as int, speed as int);
    loop
        invariant_except_break
            g.wf(),
            g.positive_lengths(),
            g.valid_index(seg as int),
            -2 * DIST_LIMIT <= d <= LEN_LIMIT,
            -SPEED_LIMIT <= speed <= SPEED_LIMIT,
            !dangling,
            resolve_underflow(*g, seg as int, d as int, speed as int) == target_under,
        ensures
            !dangling ==> g.valid_index(seg as int),
            !dangling ==> target_under == Some((seg as int, d as int, speed as int)),
            !dangling ==> 0 <= d <= LEN_LIMIT,
            !dangling ==> -SPEED_LIMIT <= speed <= SPEED_LIMIT,
            dangling ==> target_under is None,
        decreases (if d < 0 { 0 - d } else { 0 }),
    {
        if d >= 0 {
            break;
        }
        match g.pieces[seg].connection.previous {
            None => {
                d = 0;
                speed = 0;
                break;
            },
            Some(prev_track) => {
                if prev_track < g.pieces.len() {
                    proof {
                        assert(g.piece_len(prev_track as int) >= 1);
                    }
                    d = d + g.pieces[prev_track].path.length_meters;
                    seg = prev_track;
                } else {
                    dangling = true;
                    break;
                }
            },
        }
    }
    if dangling {
        return;
    }

    let piece = &g.pieces[seg].path;
    let t = piece.get_t_for_distance(d);
    let (world_pos, forward_dir) = evaluate_bezier(piece, t);
    let facing = if speed < 0 {
        forward_dir.negated()
    } else {
        forward_dir
    };

    car.position.track = seg;
    car.position.distance_on_piece = d;
    car.velocity.speed = speed;
    car.pose.position = world_pos;
    if !(facing.x == 0 && facing.y == 0 && facing.z == 0) {
        car.pose.forward = facing;
    }
}


/// The car a gravity step leaves behind: only the speed changes.
pub open spec fn gravity_car(g: TrackGraph, car: Car, dt: int) -> Car {
    Car {
        velocity: LinearVelocity { speed: gravity_speed(g, car, dt) as i64 },
        ..car
    }
}

/// The car a friction step leaves behind: only the speed changes.
pub open spec fn friction_car(car: Car, dt: int) -> Car {
    Car {
        velocity: LinearVelocity {
            speed: friction_speed(car.physics, car.velocity.speed as int, dt) as i64,
        },
        ..car
    }
}

/// The gravity step of the pipeline, run over every vehicle independently.
pub fn gravity_system(track_pieces: &TrackGraph, cars: &mut Vec<Car>, dt: i64)
    requires
        track_pieces.wf(),
        0 <= dt <= MAX_DT,
        forall|i: int| 0 <= i < old(cars)@.len() ==> (#[trigger] old(cars)@[i]).wf(),
    ensures
        final(cars)@.len() == old(cars)@.len(),
        forall|i: int|
            0 <= i < old(cars)@.len() ==> final(cars)@[i] == gravity_car(
                *track_pieces,
                #[trigger] old(cars)@[i],
                dt as int,
            ),
        forall|i: int| 0 <= i < final(cars)@.len() ==> (#[trigger] final(cars)@[i]).wf(),
{
    let n = cars.len();
    let mut idx: usize = 0;
    while idx < n
        invariant
            track_pieces.wf(),
            0 <= dt <= MAX_DT,
            idx <= n,
            n == cars@.len(),
            cars@.len() == old(cars)@.len(),
            forall|i: int| idx <= i < n ==> cars@[i] == #[trigger] old(cars)@[i],
            forall|i: int|
                0 <= i < idx ==> cars@[i] == gravity_car(
                    *track_pieces,
                    #[trigger] old(cars)@[i],
                    dt as int,
                ),
            forall|i: int| 0 <= i < n ==> (#[trigger] cars@[i]).wf(),
        decreases n - idx,
    {
        let mut car = cars[idx];
        gravity_step(track_pieces, &mut car, dt);
        cars.set(idx, car);
        idx = idx + 1;
    }
}

/// The friction step of the pipeline, run over every vehicle independently.
pub fn friction_system(cars: &mut Vec<Car>, dt: i64)
    requires
        0 <= dt <= MAX_DT,
        forall|i: int| 0 <= i < old(cars)@.len() ==> (#[trigger] old(cars)@[i]).wf(),
    ensures
        final(cars)@.len() == old(cars)@.len(),
        forall|i: int|
            0 <= i < old(cars)@.len() ==> final(cars)@[i] == friction_car(
                #[trigger] old(cars)@[i],
                dt as int,
            ),
        forall|i: int| 0 <= i < final(cars)@.len() ==> (#[trigger] final(cars)@[i]).wf(),
{
    let n = cars.len();
    let mut idx: usize = 0;
    while idx < n
        invariant
            0 <= dt <= MAX_DT,
            idx <= n,
            n == cars@.len(),
            cars@.len() == old(cars)@.len(),
            forall|i: int| idx <= i < n ==> cars@[i] == #[trigger] old(cars)@[i],
            forall|i: int|
                0 <= i < idx ==> cars@[i] == friction_car(#[trigger] old(cars)@[i], dt as int),
            forall|i: int| 0 <= i < n ==> (#[trigger] cars@[i]).wf(),
        decreases n - idx,
    {
        let mut car = cars[idx];
        friction_step(&mut car, dt);
        cars.set(idx, car);
        idx = idx + 1;
    }
}

/// The movement step of the pipeline, run over every vehicle independently.
pub fn car_movement_system(track_pieces: &TrackGraph, cars: &mut Vec<Car>, dt: i64)
    requires
        track_pieces.wf(),
        track_pieces.positive_lengths(),
        0 <= dt <= MAX_DT,
        forall|i: int| 0 <= i < old(cars)@.len() ==> (#[trigger] old(cars)@[i]).wf(),
    ensures
        final(cars)@.len() == old(cars)@.len(),
        forall|i: int|
            0 <= i < old(cars)@.len() ==> final(cars)@[i] == movement_result(
                *track_pieces,
                #[trigger] old(cars)@[i],
                dt as int,
            ),
        forall|i: int| 0 <= i < final(cars)@.len() ==> (#[trigger] final(cars)@[i]).wf(),
{
    let n = cars.len();
    let mut idx: usize = 0;
    while idx < n
        invariant
            track_pieces.wf(),
            track_pieces.positive_lengths(),
            0 <= dt <= MAX_DT,
            idx <= n,
            n == cars@.len(),
            cars@.len() == old(cars)@.len(),
            forall|i: int| idx <= i < n ==> cars@[i] == #[trigger] old(cars)@[i],
            forall|i: int|
                0 <= i < idx ==> cars@[i] == movement_result(
                    *track_pieces,
                    #[trigger] old(cars)@[i],
                    dt as int,
                ),
            forall|i: int| 0 <= i < n ==> (#[trigger] cars@[i]).wf(),
        decreases n - idx,
    {
        let mut car = cars[idx];
        car_movement_step(track_pieces, &mut car, dt);
        cars.set(idx, car);
        idx = idx + 1;
    }
}

/// Traversal conserves distance: a vehicle that overflows its piece by less
/// than the next piece's length ends up on the next piece, having travelled
/// exactly the leftover distance past the boundary, at unchanged speed.
pub proof fn lemma_traversal_conservation(
    g: TrackGraph,
    a: int,
    b: usize,
    d: int,
    speed: int,
)
    requires
        g.positive_lengths(),
        g.valid_index(a),
        g.valid_index(b as int),
        g.next_of(a) == Some(b),
        g.piece_len(a) <= d < g.piece_len(a) + g.piece_len(b as int),
    ensures
        resolve_overflow(g, a, d, speed) == Some((b as int, d - g.piece_len(a), speed)),
{
    assert(resolve_overflow(g, b as int, d - g.piece_len(a), speed) == Some(
        (b as int, d - g.piece_len(a), speed),
    ));
}

/// A dead end clamps: with no next link, an overflowing vehicle stops
/// exactly at the end of its piece with zero speed.
pub proof fn lemma_dead_end_clamp(g: TrackGraph, seg: int, d: int, speed: int)
    requires
        g.positive_lengths(),
        g.valid_index(seg),
        g.next_of(seg) is None,
        d >= g.piece_len(seg),
    ensures
        resolve_overflow(g, seg, d, speed) == Some((seg, g.piece_len(seg), 0int)),
{
}

/// In a fully linked graph, forward traversal always succeeds and lands on
/// a valid piece strictly before its end, never losing the vehicle's speed.
proof fn lemma_overflow_closed(g: TrackGraph, seg: int, d: int, speed: int)
    requires
        g.positive_lengths(),
        g.fully_linked(),
        g.valid_index(seg),
    ensures
        resolve_overflow(g, seg, d, speed) is Some,
        g.valid_index(resolve_overflow(g, seg, d, speed).unwrap().0),
        resolve_overflow(g, seg, d, speed).unwrap().1 < g.piece_len(
            resolve_overflow(g, seg, d, speed).unwrap().0,
        ),
        d >= 0 ==> resolve_overflow(g, seg, d, speed).unwrap().1 >= 0,
        resolve_overflow(g, seg, d, speed).unwrap().2 == speed,
    decreases d,
{
    if d < g.piece_len(seg) {
    } else {
        let next_track = g.next_of(seg).unwrap();
        lemma_overflow_closed(g, next_track as int, d - g.piece_len(seg), speed);
    }
}

/// In a fully linked graph, backward traversal always succeeds and lands on
/// a valid piece at a non-negative distance strictly before its end.
proof fn lemma_underflow_closed(g: TrackGraph, seg: int, d: int, speed: int)
    requires
        g.positive_lengths(),
        g.fully_linked(),
        g.valid_index(seg),
        d < g.piece_len(seg),
    ensures
        resolve_underflow(g, seg, d, speed) is Some,
        g.valid_index(resolve_underflow(g, seg, d, speed).unwrap().0),
        0 <= resolve_underflow(g, seg, d, speed).unwrap().1 < g.piece_len(
            resolve_underflow(g, seg, d, speed).unwrap().0,
        ),
        resolve_underflow(g, seg, d, speed).unwrap().2 == speed,
    decreases (if d < 0 { 0 - d } else { 0 }),
{
    if d >= 0 {
    } else {
        let prev_track = g.prev_of(seg).unwrap();
        lemma_underflow_closed(
            g,
            prev_track as int,
            d + g.piece_len(prev_track as int),
            speed,
        );
    }
}

/// The closed-loop invariant: on a fully closed graph, a movement step never
/// leaves the loop.  The vehicle always resolves to a valid piece with its
/// distance inside that piece's range, however far a tick overshoots.
pub proof fn lemma_closed_loop_invariant(g: TrackGraph, car: Car, dt: int)
    requires
        g.wf(),
        g.positive_lengths(),
        g.fully_linked(),
        g.valid_index(car.position.track as int),
        car.wf(),
    ensures
        g.valid_index(movement_result(g, car, dt).position.track as int),
        0 <= movement_result(g, car, dt).position.distance_on_piece,
        movement_result(g, car, dt).position.distance_on_piece < g.piece_len(
            movement_result(g, car, dt).position.track as int,
        ),
{
    let d1 = car.position.distance_on_piece + movement_delta(car.velocity.speed as int, dt);
    lemma_overflow_closed(g, car.position.track as int, d1, car.velocity.speed as int);
    let over = resolve_overflow(
        g,
        car.position.track as int,
        d1,
        car.velocity.speed as int,
    ).unwrap();
    lemma_underflow_closed(g, over.0, over.1, over.2);
    let under = resolve_underflow(g, over.0, over.1, over.2).unwrap();
    assert(g.pieces@[under.0].path.wf());
    vstd::std_specs::vec::axiom_spec_len(&g.pieces);
}


/// One full simulation tick: gravity, then friction, then movement, in that
/// fixed order, for every vehicle.  Order matters: movement consumes the
/// speed the first two steps produce.
pub fn tick(track_pieces: &TrackGraph, cars: &mut Vec<Car>, dt: i64)
    requires
        track_pieces.wf(),
        track_pieces.positive_lengths(),
        0 <= dt <= MAX_DT,
        forall|i: int| 0 <= i < old(cars)@.len() ==> (#[trigger] old(cars)@[i]).wf(),
    ensures
        final(cars)@.len() == old(cars)@.len(),
        forall|i: int|
            0 <= i < old(cars)@.len() ==> final(cars)@[i] == movement_result(
                *track_pieces,
                friction_car(
                    gravity_car(*track_pieces, #[trigger] old(cars)@[i], dt as int),
                    dt as int,
                ),
                dt as int,
            ),
        forall|i: int| 0 <= i < final(cars)@.len() ==> (#[trigger] final(cars)@[i]).wf(),
{
    gravity_system(track_pieces, cars, dt);
    friction_system(cars, dt);
    car_movement_system(track_pieces, cars, dt);
}

} // verus!
