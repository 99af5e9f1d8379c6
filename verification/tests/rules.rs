use boids::{Boid, Params, Vec2};

/// Parameters at a thousand steps to the unit, where the rounding of single
/// steps shows in small numbers.
fn coarse() -> Params {
    Params {
        margin: 100_000,
        border_turn: 1_000,
        speed_limit: 10_000,
        separation_radius: 40_000,
        neighbor_radius: 100_000,
        separation_gain: 50,
        alignment_gain: 50,
        cohesion_gain: 5,
    }
}

fn boid(px: i64, py: i64, vx: i64, vy: i64) -> Boid {
    Boid::new(Vec2::new(px, py), Vec2::new(vx, vy))
}

#[test]
fn is_near_is_strict_and_euclidean() {
    let a = boid(0, 0, 0, 0);
    assert!(a.is_near(&boid(30_000, 0, 0, 0), 40_000));
    assert!(a.is_near(&boid(24_000, 31_999, 0, 0), 40_000));
    // (24_000, 32_000) is exactly 40_000 away
    assert!(!a.is_near(&boid(24_000, 32_000, 0, 0), 40_000));
    // less than the radius away on each axis, more than the radius away
    assert!(!a.is_near(&boid(30_000, 30_000, 0, 0), 40_000));
    assert!(!a.is_near(&boid(0, 0, 0, 0), 0));
    assert!(a.is_near(&boid(0, 0, 0, 0), 1));
}

#[test]
fn is_near_across_the_whole_coordinate_range() {
    let a = boid(i64::MIN, i64::MIN, 0, 0);
    let b = boid(i64::MAX, i64::MAX, 0, 0);
    assert!(!a.is_near(&b, u32::MAX));
    assert!(!b.is_near(&a, u32::MAX));
    assert!(a.is_near(&boid(i64::MIN + 3, i64::MIN + 4, 0, 0), 6));
    assert!(!a.is_near(&boid(i64::MIN + 3, i64::MIN + 4, 0, 0), 5));
}

#[test]
fn rules_are_zero_without_neighbours() {
    let params = coarse();
    let pop = vec![boid(0, 0, 3_000, 1_000), boid(500_000, 0, -4_000, 0), boid(0, -200_000, 1, 1)];
    for (i, b) in pop.iter().enumerate() {
        assert_eq!(b.separation(&pop, i, &params), Vec2::new(0, 0));
        assert_eq!(b.alignment(&pop, i, &params), Vec2::new(0, 0));
        assert_eq!(b.cohesion(&pop, i, &params), Vec2::new(0, 0));
    }
}

#[test]
fn rules_are_zero_for_a_boid_alone() {
    let params = coarse();
    let pop = vec![boid(12, 34, 56, 78)];
    assert_eq!(pop[0].separation(&pop, 0, &params), Vec2::new(0, 0));
    assert_eq!(pop[0].alignment(&pop, 0, &params), Vec2::new(0, 0));
    assert_eq!(pop[0].cohesion(&pop, 0, &params), Vec2::new(0, 0));
    let none: Vec<Boid> = Vec::new();
    assert_eq!(pop[0].separation(&none, 0, &params), Vec2::new(0, 0));
    assert_eq!(pop[0].alignment(&none, 0, &params), Vec2::new(0, 0));
    assert_eq!(pop[0].cohesion(&none, 0, &params), Vec2::new(0, 0));
}

#[test]
fn separation_sums_the_ways_from_close_boids() {
    let params = coarse();
    let pop = vec![
        boid(0, 0, 0, 0),
        boid(10_000, 0, 0, 0),
        boid(0, -20_000, 0, 0),
        boid(39_000, 0, 0, 0),
        boid(41_000, 0, 0, 0),
    ];
    // ways: (-10_000, 0) + (0, 20_000) + (-39_000, 0); times 50 / 1000
    assert_eq!(pop[0].separation(&pop, 0, &params), Vec2::new(-2_450, 1_000));
}

#[test]
fn separation_is_not_an_average() {
    let params = coarse();
    let one = vec![boid(0, 0, 0, 0), boid(10_000, 0, 0, 0)];
    let three = vec![boid(0, 0, 0, 0), boid(10_000, 0, 0, 0), boid(10_000, 0, 0, 0), boid(10_000, 0, 0, 0)];
    assert_eq!(one[0].separation(&one, 0, &params), Vec2::new(-500, 0));
    assert_eq!(three[0].separation(&three, 0, &params), Vec2::new(-1_500, 0));
}

#[test]
fn separation_radius_is_strict() {
    let params = coarse();
    let at = vec![boid(0, 0, 0, 0), boid(40_000, 0, 0, 0)];
    let inside = vec![boid(0, 0, 0, 0), boid(39_999, 0, 0, 0)];
    assert_eq!(at[0].separation(&at, 0, &params), Vec2::new(0, 0));
    // -39_999 * 50 / 1000 = -1999.95, rounded away from zero
    assert_eq!(inside[0].separation(&inside, 0, &params), Vec2::new(-2_000, 0));
}

#[test]
fn separation_rounds_away_from_zero_on_both_sides() {
    let params = coarse();
    let pop = vec![boid(0, 0, 0, 0), boid(19, -19, 0, 0)];
    // 19 * 50 / 1000 = 0.95: a push of less than a step is a push of one step
    assert_eq!(pop[0].separation(&pop, 0, &params), Vec2::new(-1, 1));
    assert_eq!(pop[1].separation(&pop, 1, &params), Vec2::new(1, -1));
    let pop = vec![boid(0, 0, 0, 0), boid(1_010, -1_010, 0, 0)];
    // 1_010 * 50 / 1000 = 50.5
    assert_eq!(pop[0].separation(&pop, 0, &params), Vec2::new(-51, 51));
    assert_eq!(pop[1].separation(&pop, 1, &params), Vec2::new(51, -51));
    let pop = vec![boid(0, 0, 0, 0), boid(1, 0, 0, 0)];
    assert_eq!(pop[0].separation(&pop, 0, &params), Vec2::new(-1, 0));
    assert_eq!(pop[1].separation(&pop, 1, &params), Vec2::new(1, 0));
}

#[test]
fn separation_is_zero_where_the_ways_cancel() {
    let params = coarse();
    let pop = vec![boid(0, 0, 0, 0), boid(700, -19, 0, 0), boid(-700, -19, 0, 0)];
    // ways (-700, 19) + (700, 19): nothing on x, 38 * 50 / 1000 = 1.9 on y
    assert_eq!(pop[0].separation(&pop, 0, &params), Vec2::new(0, 2));
    let mut off = params;
    off.separation_gain = 0;
    assert_eq!(pop[0].separation(&pop, 0, &off), Vec2::new(0, 0));
}

#[test]
fn separation_of_two_close_boids_is_opposite() {
    let params = coarse();
    let pop = vec![boid(-7_123, 4_001, 10, 20), boid(3_300, -9_876, -30, 40)];
    let a = pop[0].separation(&pop, 0, &params);
    let b = pop[1].separation(&pop, 1, &params);
    // -10_423 * 50 / 1000 = -521.15 and 13_877 * 50 / 1000 = 693.85
    assert_eq!(a, Vec2::new(-522, 694));
    assert_eq!(b, Vec2::new(522, -694));
    assert!(a.x * b.x + a.y * b.y < 0);
    // each points away from the other boid
    let way = (pop[0].position.x - pop[1].position.x, pop[0].position.y - pop[1].position.y);
    assert!(a.x * way.0 + a.y * way.1 > 0);
    assert!(b.x * way.0 + b.y * way.1 < 0);
}

#[test]
fn alignment_steers_toward_the_mean_velocity() {
    let params = coarse();
    let pop = vec![
        boid(0, 0, 1_000, 0),
        boid(10_000, 0, 3_000, 0),
        boid(0, 99_000, 6_000, 3_000),
        boid(0, 100_000, 9_999, 9_999),
    ];
    // mean (4_500, 1_500), less (1_000, 0), times 50 / 1000
    assert_eq!(pop[0].alignment(&pop, 0, &params), Vec2::new(175, 75));
}

#[test]
fn alignment_rounds_the_mean_and_the_gain_toward_zero() {
    let params = coarse();
    let pop = vec![boid(0, 0, 0, 0), boid(1, 0, -7, 7), boid(2, 0, -8, 8), boid(3, 0, -8, 8)];
    // sum (-23, 23), mean (-7, 7) rounded toward zero
    let mut strong = params;
    strong.alignment_gain = 1_000;
    assert_eq!(pop[0].alignment(&pop, 0, &strong), Vec2::new(-7, 7));
    strong.alignment_gain = 500;
    assert_eq!(pop[0].alignment(&pop, 0, &strong), Vec2::new(-3, 3));
}

#[test]
fn cohesion_steers_toward_the_mean_position() {
    let params = coarse();
    let pop = vec![
        boid(0, 0, 0, 0),
        boid(10_000, 0, 5, 5),
        boid(20_000, 10_000, 5, 5),
        boid(100_000, 0, 5, 5),
    ];
    // mean (15_000, 5_000), times 5 / 1000
    assert_eq!(pop[0].cohesion(&pop, 0, &params), Vec2::new(75, 25));
    // from the second boid: neighbours at (0, 0), (20_000, 10_000), (100_000, 0)
    // mean (40_000, 3_333), less (10_000, 0), times 5 / 1000
    assert_eq!(pop[1].cohesion(&pop, 1, &params), Vec2::new(150, 16));
}

#[test]
fn cohesion_far_from_the_origin() {
    let params = coarse();
    let far = i64::MAX - 50_000;
    let pop = vec![boid(far, i64::MIN, 0, 0), boid(far + 50_000, i64::MIN + 30_000, 0, 0), boid(far + 10_000, i64::MIN + 10_000, 0, 0)];
    // mean way (30_000, 20_000), times 5 / 1000
    assert_eq!(pop[0].cohesion(&pop, 0, &params), Vec2::new(150, 100));
}

#[test]
fn a_boid_passes_over_its_own_index_only() {
    let params = coarse();
    let twin = boid(1_000, 1_000, 2_000, 0);
    let pop = vec![twin, twin, boid(11_000, 1_000, 0, 0)];
    // the twin at index 1 counts for the boid at index 0, at distance zero
    assert_eq!(pop[0].separation(&pop, 0, &params), Vec2::new(-500, 0));
    // mean velocity (1_000, 0), less (2_000, 0), times 50 / 1000
    assert_eq!(pop[0].alignment(&pop, 0, &params), Vec2::new(-50, 0));
    // mean position (6_000, 1_000), less (1_000, 1_000), times 5 / 1000
    assert_eq!(pop[0].cohesion(&pop, 0, &params), Vec2::new(25, 0));
}

#[test]
fn what_stands_at_the_own_index_is_not_read() {
    let params = coarse();
    let me = boid(0, 0, 1_000, 1_000);
    let pop = vec![boid(5_000, 0, 0, 0), me, boid(0, 8_000, 4_000, 0)];
    let mut other = pop.clone();
    other[1] = boid(1, 1, -9_000, 9_000);
    assert_eq!(me.separation(&pop, 1, &params), me.separation(&other, 1, &params));
    assert_eq!(me.alignment(&pop, 1, &params), me.alignment(&other, 1, &params));
    assert_eq!(me.cohesion(&pop, 1, &params), me.cohesion(&other, 1, &params));
    assert_eq!(me.separation(&pop, 1, &params), Vec2::new(-250, -400));
}

#[test]
fn an_index_beyond_the_population_passes_over_nobody() {
    let params = coarse();
    let me = boid(0, 0, 0, 0);
    let pop = vec![boid(10_000, 0, 0, 0)];
    assert_eq!(me.separation(&pop, 1, &params), Vec2::new(-500, 0));
    assert_eq!(me.separation(&pop, 0, &params), Vec2::new(0, 0));
}

#[test]
fn rules_do_not_change_the_population() {
    let params = coarse();
    let pop = vec![boid(0, 0, 1, 2), boid(3_000, 4_000, 5, 6)];
    let before = pop.clone();
    let _ = pop[0].separation(&pop, 0, &params);
    let _ = pop[0].alignment(&pop, 0, &params);
    let _ = pop[0].cohesion(&pop, 0, &params);
    assert_eq!(pop, before);
}
