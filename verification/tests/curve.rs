use coaster::track::PathComponent;
use coaster::utils::evaluate_bezier;
use coaster::vec3::Vec3;

fn v(x: i64, y: i64, z: i64) -> Vec3 {
    Vec3 { x, y, z }
}

#[test]
fn evaluate_at_zero_returns_start_anchor() {
    let path = PathComponent::new(
        v(1000, 2000, 3000),
        v(7000, 5000, -1000),
        v(2000, 8000, 0),
        v(4000, -2000, 500),
    );
    let (position, _) = evaluate_bezier(&path, 0);
    assert_eq!(position, v(1000, 2000, 3000));
}

#[test]
fn evaluate_at_one_returns_end_anchor() {
    let path = PathComponent::new(
        v(1000, 2000, 3000),
        v(7000, 5000, -1000),
        v(2000, 8000, 0),
        v(4000, -2000, 500),
    );
    let (position, _) = evaluate_bezier(&path, 1000);
    assert_eq!(position, v(7000, 5000, -1000));
}

#[test]
fn evaluate_clamps_parameter_outside_range() {
    let path = PathComponent::new(
        v(1000, 2000, 3000),
        v(7000, 5000, -1000),
        v(2000, 8000, 0),
        v(4000, -2000, 500),
    );
    let (below, _) = evaluate_bezier(&path, -500);
    let (above, _) = evaluate_bezier(&path, 2500);
    assert_eq!(below, v(1000, 2000, 3000));
    assert_eq!(above, v(7000, 5000, -1000));
}

#[test]
fn straight_segment_midpoint() {
    let path = PathComponent::new_straight(v(0, 0, 0), v(8000, 0, 0));
    let (position, tangent) = evaluate_bezier(&path, 500);
    // Weights at the midpoint: (125 + 375) million on each anchor.
    assert_eq!(position, v(4000, 0, 0));
    // The tangent points along +x at unit scale.
    assert_eq!(tangent, v(1000, 0, 0));
}

#[test]
fn equally_spaced_control_points_move_linearly() {
    // With control points at 0, 1000, 2000, 3000 the Bernstein sum reduces
    // to a linear function of the parameter: x(t) = 3000 * t.
    let path = PathComponent::new(v(0, 0, 0), v(3000, 0, 0), v(1000, 0, 0), v(2000, 0, 0));
    let (position, _) = evaluate_bezier(&path, 250);
    assert_eq!(position.x, 750);
}

#[test]
fn straight_segment_tangent_degenerates_at_ends() {
    // A straight piece built with coincident control points has a zero
    // derivative at both parameter boundaries.
    let path = PathComponent::new_straight(v(0, 0, 0), v(8000, 0, 0));
    let (_, tangent_start) = evaluate_bezier(&path, 0);
    let (_, tangent_end) = evaluate_bezier(&path, 1000);
    assert_eq!(tangent_start, v(0, 0, 0));
    assert_eq!(tangent_end, v(0, 0, 0));
}

#[test]
fn distance_of_pythagorean_triple() {
    let a = v(0, 0, 0);
    let b = v(3000, 4000, 0);
    assert_eq!(a.distance(&b), 5000);
}

#[test]
fn distance_rounds_down() {
    let a = v(0, 0, 0);
    let b = v(10, 10, 10);
    // sqrt(300) is a little over 17.32.
    assert_eq!(a.distance(&b), 17);
}
