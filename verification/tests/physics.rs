use coaster::track::{PathComponent, TrackConnection, TrackGraph, TrackPiece};
use coaster::train::{
    friction_step, gravity_step, tick, Car, LinearVelocity, Pose, TrackPosition, TrainPhysics,
};
use coaster::vec3::Vec3;

fn v(x: i64, y: i64, z: i64) -> Vec3 {
    Vec3 { x, y, z }
}

fn car_on(track: usize, distance: i64, speed: i64) -> Car {
    Car {
        position: TrackPosition { track, distance_on_piece: distance },
        velocity: LinearVelocity { speed },
        physics: TrainPhysics::default(),
        pose: Pose { position: v(0, 0, 0), forward: v(0, 0, 0) },
    }
}

/// A single climbing piece: a 3-4-5 slope, 30 meters out and 40 meters up.
fn lift_hill() -> TrackGraph {
    let path = PathComponent::new_straight(v(0, 0, 0), v(30000, 40000, 0));
    TrackGraph {
        pieces: vec![
            TrackPiece { path, connection: TrackConnection { previous: None, next: None } },
        ],
    }
}

#[test]
fn default_physics_coefficients() {
    let physics = TrainPhysics::default();
    assert_eq!(physics.drag_factor, 180);
    assert_eq!(physics.rolling_resistance, 250);
}

#[test]
fn gravity_decelerates_when_climbing() {
    let graph = lift_hill();
    let len = graph.pieces[0].path.length_meters;
    let mut car = car_on(0, (len + 1) / 2, 0);
    gravity_step(&graph, &mut car, 1000);
    // The unit tangent's vertical component on a 3-4-5 slope is 4/5, so one
    // second of gravity is -9.81 * 0.8 meters per second.
    assert_eq!(car.velocity.speed, -7848);
    assert!(car.velocity.speed < 0);
}

#[test]
fn gravity_accelerates_when_descending() {
    // The same slope ridden downhill: 40 meters down over the piece.
    let path = PathComponent::new_straight(v(0, 40000, 0), v(30000, 0, 0));
    let graph = TrackGraph {
        pieces: vec![
            TrackPiece { path, connection: TrackConnection { previous: None, next: None } },
        ],
    };
    let len = graph.pieces[0].path.length_meters;
    let mut car = car_on(0, (len + 1) / 2, 0);
    gravity_step(&graph, &mut car, 1000);
    assert_eq!(car.velocity.speed, 7848);
    assert!(car.velocity.speed > 0);
}

#[test]
fn gravity_skips_dangling_track_reference() {
    let graph = lift_hill();
    let mut car = car_on(7, 1000, 4321);
    gravity_step(&graph, &mut car, 1000);
    assert_eq!(car.velocity.speed, 4321);
}

#[test]
fn friction_zero_crossing_stops_exactly() {
    // 0.05 m/s with a rolling reduction of 0.25 m/s over the tick: the
    // reduction exceeds the speed, so the vehicle stops without reversing.
    let mut car = car_on(0, 0, 50);
    friction_step(&mut car, 1000);
    assert_eq!(car.velocity.speed, 0);
}

#[test]
fn friction_zero_crossing_stops_exactly_backward() {
    let mut car = car_on(0, 0, -50);
    friction_step(&mut car, 1000);
    assert_eq!(car.velocity.speed, 0);
}

#[test]
fn friction_applies_rolling_and_drag() {
    // At 10 m/s: drag is 180 * 10000^2 / 10^9 = 18, rolling is 250.
    let mut car = car_on(0, 0, 10000);
    friction_step(&mut car, 1000);
    assert_eq!(car.velocity.speed, 10000 - 18 - 250);
}

#[test]
fn friction_skips_speeds_below_epsilon() {
    let mut car = car_on(0, 0, 0);
    friction_step(&mut car, 1000);
    assert_eq!(car.velocity.speed, 0);
}

#[test]
fn tick_runs_gravity_friction_movement_in_order() {
    // A stationary car halfway up the lift hill: gravity pulls it to
    // -7.848 m/s, friction takes 0.25 m/s rolling plus 0.011 m/s drag back,
    // and movement slides it down the piece by the resulting speed.
    let graph = lift_hill();
    let len = graph.pieces[0].path.length_meters;
    let start = (len + 1) / 2;
    let mut cars = vec![car_on(0, start, 0)];
    tick(&graph, &mut cars, 1000);
    assert_eq!(cars[0].velocity.speed, -7848 + 250 + 11);
    assert_eq!(cars[0].position.distance_on_piece, start - 7587);
}

#[test]
fn friction_applies_rolling_and_drag_backward() {
    let mut car = car_on(0, 0, -10000);
    friction_step(&mut car, 1000);
    assert_eq!(car.velocity.speed, -10000 + 18 + 250);
}

#[test]
fn gravity_treats_degenerate_piece_as_arrived() {
    // A zero-length piece: the progress ratio guard avoids the division and
    // samples the (degenerate, zero) tangent at the end of the piece.
    let path = PathComponent::new_straight(v(5000, 5000, 0), v(5000, 5000, 0));
    assert_eq!(path.length_meters, 0);
    let graph = TrackGraph {
        pieces: vec![
            TrackPiece { path, connection: TrackConnection { previous: None, next: None } },
        ],
    };
    let mut car = car_on(0, 0, 4321);
    gravity_step(&graph, &mut car, 1000);
    assert_eq!(car.velocity.speed, 4321);
}

#[test]
fn gravity_saturates_at_the_speed_cap() {
    // Descending just below the representable speed cap: integration
    // saturates instead of overflowing.
    let path = PathComponent::new_straight(v(0, 40000, 0), v(30000, 0, 0));
    let graph = TrackGraph {
        pieces: vec![
            TrackPiece { path, connection: TrackConnection { previous: None, next: None } },
        ],
    };
    let len = graph.pieces[0].path.length_meters;
    let mut car = car_on(0, (len + 1) / 2, coaster::math::SPEED_LIMIT - 1000);
    gravity_step(&graph, &mut car, 1000);
    assert_eq!(car.velocity.speed, coaster::math::SPEED_LIMIT);
}
