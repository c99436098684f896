use tower_defense::geometry::{integer_sqrt, step_length, Point, WORLD_LIMIT};

#[test]
fn integer_square_roots() {
    assert_eq!(integer_sqrt(0), 0);
    assert_eq!(integer_sqrt(1), 1);
    assert_eq!(integer_sqrt(2), 1);
    assert_eq!(integer_sqrt(3), 1);
    assert_eq!(integer_sqrt(4), 2);
    assert_eq!(integer_sqrt(15), 3);
    assert_eq!(integer_sqrt(16), 4);
    assert_eq!(integer_sqrt(17), 4);
    assert_eq!(integer_sqrt(25_000_000_000_000_000_000), 5_000_000_000);
    assert_eq!(integer_sqrt(24_999_999_999_999_999_999), 4_999_999_999);
    let top: u128 = (1 << 126) - 1;
    assert_eq!(integer_sqrt(top), (1 << 63) - 1);
}

#[test]
fn step_is_speed_times_time() {
    assert_eq!(step_length(50, 1_000_000_000), 50_000_000_000);
    assert_eq!(step_length(50, 640_000_000), 32_000_000_000);
    assert_eq!(step_length(300, 16_666_667), 5_000_000_100);
    assert_eq!(step_length(0, u64::MAX), 0);
    assert_eq!(step_length(u32::MAX, u64::MAX), (u32::MAX as u128) * (u64::MAX as u128));
}

#[test]
fn squared_distance() {
    let a = Point { x: 1_000_000_000, y: -2_000_000_000 };
    let b = Point { x: 4_000_000_000, y: 2_000_000_000 };
    assert_eq!(a.distance_squared(&b), 25_000_000_000_000_000_000);
    assert_eq!(b.distance_squared(&a), 25_000_000_000_000_000_000);
    assert_eq!(a.distance_squared(&a), 0);
    let low = Point { x: -WORLD_LIMIT, y: -WORLD_LIMIT };
    let high = Point { x: WORLD_LIMIT, y: WORLD_LIMIT };
    assert_eq!(low.distance_squared(&high), 8_000_000_000_000_000_000_000_000_000_000);
}

#[test]
fn world_limits() {
    assert!(Point { x: WORLD_LIMIT, y: -WORLD_LIMIT }.is_in_world());
    assert!(!Point { x: WORLD_LIMIT + 1, y: 0 }.is_in_world());
    assert!(!Point { x: 0, y: -WORLD_LIMIT - 1 }.is_in_world());
}

#[test]
fn step_that_covers_the_distance_lands_on_the_goal() {
    let from = Point { x: 0, y: 0 };
    let to = Point { x: 3_000_000_000, y: 4_000_000_000 };
    assert_eq!(from.advance(&to, 5_000_000_000), (to, true));
    assert_eq!(from.advance(&to, 5_000_000_001), (to, true));
    assert_eq!(from.advance(&to, u128::MAX), (to, true));
    // Standing on the goal, no step at all still arrives.
    assert_eq!(to.advance(&to, 0), (to, true));
}

#[test]
fn shorter_step_moves_along_the_line() {
    let from = Point { x: 0, y: 0 };
    let to = Point { x: 3_000_000_000, y: 4_000_000_000 };
    assert_eq!(
        from.advance(&to, 2_500_000_000),
        (Point { x: 1_500_000_000, y: 2_000_000_000 }, false)
    );
    assert_eq!(
        from.advance(&to, 4_999_999_999),
        (Point { x: 2_999_999_999, y: 3_999_999_999 }, false)
    );
    // Toward lower coordinates the step is mirrored.
    assert_eq!(
        to.advance(&from, 2_500_000_000),
        (Point { x: 1_500_000_000, y: 2_000_000_000 }, false)
    );
    assert_eq!(from.advance(&to, 0), (from, false));
}

#[test]
fn step_along_an_axis_is_exact() {
    let from = Point { x: -304_000_000_000, y: 354_000_000_000 };
    let to = Point { x: -272_000_000_000, y: 354_000_000_000 };
    assert_eq!(
        from.advance(&to, 25_000_000_000),
        (Point { x: -279_000_000_000, y: 354_000_000_000 }, false)
    );
    assert_eq!(
        to.advance(&from, 1),
        (Point { x: -272_000_000_001, y: 354_000_000_000 }, false)
    );
    let down = Point { x: -304_000_000_000, y: 322_000_000_000 };
    assert_eq!(
        from.advance(&down, 31_999_999_999),
        (Point { x: -304_000_000_000, y: 322_000_000_001 }, false)
    );
}

#[test]
fn step_rounds_toward_where_it_began() {
    // Distance is the root of two: its integer part is 1.
    let from = Point { x: 0, y: 0 };
    let to = Point { x: 1, y: 1 };
    assert_eq!(from.advance(&to, 1), (Point { x: 1, y: 1 }, false));
    // Distance is the root of 200, between 14 and 15.
    let far = Point { x: 10, y: -10 };
    assert_eq!(from.advance(&far, 7), (Point { x: 5, y: -5 }, false));
    assert_eq!(from.advance(&far, 14), (Point { x: 10, y: -10 }, false));
    assert_eq!(from.advance(&far, 15), (far, true));
}
