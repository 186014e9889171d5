use coaster::track::PathComponent;
use coaster::vec3::Vec3;

fn v(x: i64, y: i64, z: i64) -> Vec3 {
    Vec3 { x, y, z }
}

fn straight_ten_meters() -> PathComponent {
    PathComponent::new_straight(v(0, 0, 0), v(10000, 0, 0))
}

#[test]
fn straight_segment_length_is_exact() {
    // On an axis-aligned straight piece every chord is an exact coordinate
    // difference, so the chord sum telescopes to the full length.
    let path = straight_ten_meters();
    assert_eq!(path.length_meters, 10000);
}

#[test]
fn table_has_resolution_plus_one_entries() {
    let path = straight_ten_meters();
    assert_eq!(path.arc_length_table.len(), 101);
}

#[test]
fn table_starts_at_zero_and_ends_at_length() {
    let path = straight_ten_meters();
    assert_eq!(path.arc_length_table[0], (0, 0));
    assert_eq!(path.arc_length_table[100], (10000, 1000));
}

#[test]
fn table_is_monotonic() {
    let path = PathComponent::new(
        v(0, 5000, 0),
        v(30000, 0, 20000),
        v(15000, 32000, 0),
        v(25000, 10000, 15000),
    );
    let table = &path.arc_length_table;
    for i in 1..table.len() {
        assert!(table[i - 1].0 <= table[i].0);
        assert!(table[i - 1].1 <= table[i].1);
    }
    assert_eq!(table[table.len() - 1].0, path.length_meters);
}

#[test]
fn lookup_on_empty_table_returns_zero() {
    let path = PathComponent {
        start_anchor: v(0, 0, 0),
        end_anchor: v(1000, 0, 0),
        start_control_point: v(0, 0, 0),
        end_control_point: v(1000, 0, 0),
        length_meters: 0,
        arc_length_table: Vec::new(),
    };
    assert_eq!(path.get_t_for_distance(500), 0);
}

#[test]
fn lookup_exact_matches_return_stored_parameter() {
    let path = straight_ten_meters();
    assert_eq!(path.get_t_for_distance(0), 0);
    assert_eq!(path.get_t_for_distance(10000), 1000);
}

#[test]
fn lookup_clamps_outside_the_table() {
    let path = straight_ten_meters();
    assert_eq!(path.get_t_for_distance(-25), 0);
    assert_eq!(path.get_t_for_distance(999999), 1000);
}

#[test]
fn lookup_interpolates_between_entries() {
    let path = PathComponent {
        start_anchor: v(0, 0, 0),
        end_anchor: v(300, 0, 0),
        start_control_point: v(0, 0, 0),
        end_control_point: v(300, 0, 0),
        length_meters: 300,
        arc_length_table: vec![(0, 0), (100, 500), (300, 1000)],
    };
    // Halfway into the first bracket: 0 + 500 * 50 / 100.
    assert_eq!(path.get_t_for_distance(50), 250);
    // Halfway into the second bracket: 500 + 500 * 100 / 200.
    assert_eq!(path.get_t_for_distance(200), 750);
    // An exact interior match returns the stored parameter.
    assert_eq!(path.get_t_for_distance(100), 500);
}
