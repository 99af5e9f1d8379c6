use boids::speed::ceil_sqrt_u128;
use boids::{Boid, Params, Vec2};

/// Parameters at a thousand steps to the unit, where the rounding of single
/// steps shows in small numbers.
fn coarse() -> Params {
    Params {
        margin: 100_000,
        border_turn: 1_000,
        speed_limit: 10_000,
        separation_radius: 40_000,
        neighbor_radius: 100_000,
        separation_gain: 50,
        alignment_gain: 50,
        cohesion_gain: 5,
    }
}

fn boid(px: i64, py: i64, vx: i64, vy: i64) -> Boid {
    Boid::new(Vec2::new(px, py), Vec2::new(vx, vy))
}

fn speed_squared(b: &Boid) -> i128 {
    let x = b.velocity.x as i128;
    let y = b.velocity.y as i128;
    x * x + y * y
}

#[test]
fn ceil_sqrt_of_small_numbers() {
    assert_eq!(ceil_sqrt_u128(0), 0);
    assert_eq!(ceil_sqrt_u128(1), 1);
    assert_eq!(ceil_sqrt_u128(2), 2);
    assert_eq!(ceil_sqrt_u128(3), 2);
    assert_eq!(ceil_sqrt_u128(4), 2);
    assert_eq!(ceil_sqrt_u128(5), 3);
    assert_eq!(ceil_sqrt_u128(9), 3);
    assert_eq!(ceil_sqrt_u128(10), 4);
}

#[test]
fn ceil_sqrt_of_squares_and_their_neighbours() {
    assert_eq!(ceil_sqrt_u128(25_000_000), 5_000);
    assert_eq!(ceil_sqrt_u128(25_000_001), 5_001);
    assert_eq!(ceil_sqrt_u128(24_999_999), 5_000);
    assert_eq!(ceil_sqrt_u128(100_840_000), 10_042);
}

#[test]
fn ceil_sqrt_of_the_largest_numbers() {
    assert_eq!(ceil_sqrt_u128(u128::MAX), 1u128 << 64);
    assert_eq!(ceil_sqrt_u128(1u128 << 126), 1u128 << 63);
    assert_eq!(ceil_sqrt_u128((1u128 << 126) + 1), (1u128 << 63) + 1);
    let top = (1u128 << 64) - 1;
    assert_eq!(ceil_sqrt_u128(top * top), top);
    assert_eq!(ceil_sqrt_u128(top * top + 1), 1u128 << 64);
}

#[test]
fn speed_limit_keeps_a_slow_velocity() {
    let params = coarse();
    let mut b = boid(1, 2, 3_000, 4_000);
    b.speed_limit(&params);
    assert_eq!(b, boid(1, 2, 3_000, 4_000));
}

#[test]
fn speed_limit_keeps_a_velocity_at_the_cap() {
    let params = coarse();
    let mut b = boid(0, 0, 6_000, -8_000);
    b.speed_limit(&params);
    assert_eq!(b.velocity, Vec2::new(6_000, -8_000));
}

#[test]
fn speed_limit_shortens_a_fast_velocity_in_its_direction() {
    let params = coarse();
    let mut b = boid(9, 9, 30_000, 40_000);
    b.speed_limit(&params);
    assert_eq!(b.velocity, Vec2::new(6_000, 8_000));
    assert_eq!(b.position, Vec2::new(9, 9));

    let mut b = boid(0, 0, -30_000, 40_000);
    b.speed_limit(&params);
    assert_eq!(b.velocity, Vec2::new(-6_000, 8_000));

    let mut b = boid(0, 0, 0, -10_001);
    b.speed_limit(&params);
    assert_eq!(b.velocity, Vec2::new(0, -10_000));
}

#[test]
fn speed_limit_loses_at_most_three_steps_of_length() {
    let params = coarse();
    let cap = params.speed_limit as i128;
    for (vx, vy) in [
        (7_000, 7_200),
        (10_001, 1),
        (-10_000, 1),
        (1, -10_000),
        (9_999, 9_999),
        (123_456_789, -987_654_321),
        (-3, 1 << 62),
        (i64::MAX, i64::MAX),
        (i64::MIN, 77),
    ] {
        let mut b = boid(0, 0, vx, vy);
        b.speed_limit(&params);
        assert!(speed_squared(&b) <= cap * cap);
        assert!(speed_squared(&b) >= (cap - 3) * (cap - 3));
        // along the velocity, and less than a step off its line
        let dot = b.velocity.x as i128 * vx as i128 + b.velocity.y as i128 * vy as i128;
        let cross = b.velocity.x as i128 * vy as i128 - b.velocity.y as i128 * vx as i128;
        assert!(dot > 0);
        assert!(cross.abs() < (vx as i128).abs() + (vy as i128).abs());
    }
}

#[test]
fn speed_limit_leaves_a_zero_velocity() {
    let params = coarse();
    let mut b = boid(4, 5, 0, 0);
    b.speed_limit(&params);
    assert_eq!(b, boid(4, 5, 0, 0));
}

#[test]
fn speed_limit_of_zero_stops_the_boid() {
    let mut params = coarse();
    params.speed_limit = 0;
    let mut b = boid(4, 5, 12, -7);
    b.speed_limit(&params);
    assert_eq!(b.velocity, Vec2::new(0, 0));
}

#[test]
fn speed_limit_holds_for_the_largest_velocities() {
    let mut params = coarse();
    params.speed_limit = u32::MAX;
    let cap = (u32::MAX as i128) * (u32::MAX as i128);
    for (vx, vy) in [
        (i64::MIN, i64::MIN),
        (i64::MAX, i64::MIN),
        (i64::MIN, 0),
        (1, i64::MAX),
        (-5_000_000_000, 5_000_000_000),
    ] {
        let mut b = boid(0, 0, vx, vy);
        b.speed_limit(&params);
        assert!(speed_squared(&b) <= cap);
        assert!(b.velocity.x.signum() == vx.signum() || b.velocity.x == 0);
        assert!(b.velocity.y.signum() == vy.signum() || b.velocity.y == 0);
    }
}

#[test]
fn update_adds_caps_and_moves() {
    let params = coarse();
    let mut b = boid(5, 7, 3_000, 0);
    b.update(Vec2::new(0, 4_000), &params);
    assert_eq!(b.velocity, Vec2::new(3_000, 4_000));
    assert_eq!(b.position, Vec2::new(3_005, 4_007));
}

#[test]
fn update_caps_before_it_moves() {
    let params = coarse();
    let mut b = boid(100, -100, 20_000, 0);
    b.update(Vec2::new(10_000, 40_000), &params);
    assert_eq!(b.velocity, Vec2::new(6_000, 8_000));
    assert_eq!(b.position, Vec2::new(6_100, 7_900));
}

#[test]
fn update_with_zero_delta_moves_by_the_velocity() {
    let params = coarse();
    let mut b = boid(0, 0, -1, 2);
    b.update(Vec2::new(0, 0), &params);
    assert_eq!(b, boid(-1, 2, -1, 2));
}

#[test]
fn speed_cap_holds_after_any_update() {
    let params = coarse();
    let cap = (params.speed_limit as i128) * (params.speed_limit as i128);
    let mut b = boid(0, 0, 0, 0);
    let deltas = [
        (123_456, -654_321),
        (-9_999, 3),
        (0, 10_001),
        (1 << 40, 1 << 41),
        (-(1 << 50), 17),
        (7_071, 7_072),
    ];
    for (dx, dy) in deltas {
        b.update(Vec2::new(dx, dy), &params);
        assert!(speed_squared(&b) <= cap);
    }
}
