use coaster::track::{PathComponent, TrackConnection, TrackGraph, TrackPiece};
use coaster::train::{car_movement_step, Car, LinearVelocity, Pose, TrackPosition, TrainPhysics};
use coaster::vec3::Vec3;

fn v(x: i64, y: i64, z: i64) -> Vec3 {
    Vec3 { x, y, z }
}

fn car_on(track: usize, distance: i64, speed: i64) -> Car {
    Car {
        position: TrackPosition { track, distance_on_piece: distance },
        velocity: LinearVelocity { speed },
        physics: TrainPhysics::default(),
        pose: Pose { position: v(0, 0, 0), forward: v(0, 0, 0) },
    }
}

fn straight(from: i64, to: i64) -> PathComponent {
    PathComponent::new_straight(v(from, 0, 0), v(to, 0, 0))
}

/// Two ten-meter pieces in a row; the chain is open at both ends.
fn two_piece_chain() -> TrackGraph {
    TrackGraph {
        pieces: vec![
            TrackPiece {
                path: straight(0, 10000),
                connection: TrackConnection { previous: None, next: Some(1) },
            },
            TrackPiece {
                path: straight(10000, 20000),
                connection: TrackConnection { previous: Some(0), next: None },
            },
        ],
    }
}

/// Two ten-meter pieces joined into a closed loop.
fn two_piece_loop() -> TrackGraph {
    TrackGraph {
        pieces: vec![
            TrackPiece {
                path: straight(0, 10000),
                connection: TrackConnection::new_closed(1, 1),
            },
            TrackPiece {
                path: straight(10000, 20000),
                connection: TrackConnection::new_closed(0, 0),
            },
        ],
    }
}

#[test]
fn traversal_conserves_distance_across_boundary() {
    // One meter before the end of piece A, moving 5 meters in one tick:
    // the vehicle ends up 4 meters into piece B.
    let graph = two_piece_chain();
    let mut car = car_on(0, 9000, 5000);
    car_movement_step(&graph, &mut car, 1000);
    assert_eq!(car.position.track, 1);
    assert_eq!(car.position.distance_on_piece, 4000);
    assert_eq!(car.velocity.speed, 5000);
}

#[test]
fn dead_end_clamps_distance_and_stops() {
    let graph = two_piece_chain();
    let mut car = car_on(1, 9000, 5000);
    car_movement_step(&graph, &mut car, 1000);
    assert_eq!(car.position.track, 1);
    assert_eq!(car.position.distance_on_piece, 10000);
    assert_eq!(car.velocity.speed, 0);
}

#[test]
fn start_of_chain_clamps_backward_motion() {
    let graph = two_piece_chain();
    let mut car = car_on(0, 1000, -5000);
    car_movement_step(&graph, &mut car, 1000);
    assert_eq!(car.position.track, 0);
    assert_eq!(car.position.distance_on_piece, 0);
    assert_eq!(car.velocity.speed, 0);
}

#[test]
fn underflow_carries_into_previous_piece() {
    let graph = two_piece_chain();
    let mut car = car_on(1, 1000, -5000);
    car_movement_step(&graph, &mut car, 1000);
    assert_eq!(car.position.track, 0);
    assert_eq!(car.position.distance_on_piece, 6000);
    assert_eq!(car.velocity.speed, -5000);
}

#[test]
fn closed_loop_survives_many_laps_forward() {
    // 1000 m/s over a tenth of a second crosses the 20-meter loop five
    // times; the vehicle still resolves to a valid piece in range.
    let graph = two_piece_loop();
    let mut car = car_on(0, 0, 1_000_000);
    car_movement_step(&graph, &mut car, 100);
    assert_eq!(car.position.track, 0);
    assert_eq!(car.position.distance_on_piece, 0);
    assert_eq!(car.velocity.speed, 1_000_000);
}

#[test]
fn closed_loop_survives_many_laps_backward() {
    let graph = two_piece_loop();
    let mut car = car_on(0, 0, -1_000_000);
    car_movement_step(&graph, &mut car, 100);
    assert_eq!(car.position.track, 0);
    assert_eq!(car.position.distance_on_piece, 0);
    assert_eq!(car.velocity.speed, -1_000_000);
}

#[test]
fn closed_loop_partial_lap_lands_in_range() {
    let graph = two_piece_loop();
    // 35 meters forward from 2 meters into piece 0: one full 20-meter lap
    // plus 17 meters, which lands 7 meters into piece 1.
    let mut car = car_on(0, 2000, 35_000);
    car_movement_step(&graph, &mut car, 1000);
    assert_eq!(car.position.track, 1);
    assert_eq!(car.position.distance_on_piece, 7000);
}

#[test]
fn dangling_next_link_abandons_the_update() {
    let graph = TrackGraph {
        pieces: vec![
            TrackPiece {
                path: straight(0, 10000),
                connection: TrackConnection { previous: None, next: Some(9) },
            },
        ],
    };
    let mut car = car_on(0, 9000, 5000);
    car_movement_step(&graph, &mut car, 1000);
    assert_eq!(car.position.track, 0);
    assert_eq!(car.position.distance_on_piece, 9000);
    assert_eq!(car.velocity.speed, 5000);
}

#[test]
fn dangling_current_track_leaves_the_car_unchanged() {
    let graph = two_piece_chain();
    let mut car = car_on(5, 1234, 5000);
    car_movement_step(&graph, &mut car, 1000);
    assert_eq!(car.position.track, 5);
    assert_eq!(car.position.distance_on_piece, 1234);
    assert_eq!(car.velocity.speed, 5000);
}

#[test]
fn movement_updates_the_world_pose() {
    // A curved piece whose tangent at the start points diagonally upward in
    // the x-y plane: the pose faces (707, 707, 0) at unit scale.
    let path = PathComponent::new(
        v(0, 0, 0),
        v(30000, 0, 0),
        v(10000, 10000, 0),
        v(20000, -10000, 0),
    );
    let graph = TrackGraph {
        pieces: vec![
            TrackPiece { path, connection: TrackConnection { previous: None, next: None } },
        ],
    };
    let mut car = car_on(0, 0, 1000);
    car_movement_step(&graph, &mut car, 0);
    assert_eq!(car.pose.position, v(0, 0, 0));
    assert_eq!(car.pose.forward, v(707, 707, 0));

    let mut backward = car_on(0, 0, -1000);
    // Zero distance travelled, but the facing follows the motion's sign.
    car_movement_step(&graph, &mut backward, 0);
    assert_eq!(backward.pose.forward, v(-707, -707, 0));
}

#[test]
fn degenerate_tangent_keeps_previous_facing() {
    // A straight piece has a zero derivative at its start; the pose keeps
    // whatever it faced before.
    let graph = two_piece_chain();
    let mut car = car_on(0, 0, 1000);
    car.pose.forward = v(5, 6, 7);
    car_movement_step(&graph, &mut car, 0);
    assert_eq!(car.pose.position, v(0, 0, 0));
    assert_eq!(car.pose.forward, v(5, 6, 7));
}

#[test]
fn graph_length_check_spots_degenerate_pieces() {
    let good = two_piece_chain();
    assert!(good.has_positive_lengths());

    let degenerate = TrackGraph {
        pieces: vec![
            TrackPiece {
                path: straight(5000, 5000),
                connection: TrackConnection { previous: None, next: None },
            },
        ],
    };
    assert!(!degenerate.has_positive_lengths());
}
