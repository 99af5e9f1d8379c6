use boids::world::{COORD_LIMIT, MAX_POPULATION};
use boids::{Boid, Flock, Params, Rect, Vec2};

/// Parameters at a thousand steps to the unit, where the rounding of single
/// steps shows in small numbers.
fn coarse() -> Params {
    Params {
        margin: 100_000,
        border_turn: 1_000,
        speed_limit: 10_000,
        separation_radius: 40_000,
        neighbor_radius: 100_000,
        separation_gain: 50,
        alignment_gain: 50,
        cohesion_gain: 5,
    }
}

fn boid(px: i64, py: i64, vx: i64, vy: i64) -> Boid {
    Boid::new(Vec2::new(px, py), Vec2::new(vx, vy))
}

fn wide_window() -> Rect {
    Rect::new(-10_000_000, 10_000_000, -10_000_000, 10_000_000)
}

fn window() -> Rect {
    Rect::new(-500_000, 500_000, -350_000, 350_000)
}

fn speed_squared(b: &Boid) -> i128 {
    let x = b.velocity.x as i128;
    let y = b.velocity.y as i128;
    x * x + y * y
}

/// A population without pattern, from a fixed linear congruential sequence.
fn scattered(count: usize) -> Vec<Boid> {
    let mut state: u64 = 0x2545_f491_4f6c_dd1d;
    let mut next = move |span: i64| -> i64 {
        state = state.wrapping_mul(6_364_136_223_846_793_005).wrapping_add(1_442_695_040_888_963_407);
        ((state >> 33) as i64) % span - span / 2
    };
    let mut boids = Vec::with_capacity(count);
    for _ in 0..count {
        let position = Vec2::new(next(800_000), next(600_000));
        let velocity = Vec2::new(next(12_000), next(12_000));
        boids.push(Boid::new(position, velocity));
    }
    boids
}

#[test]
fn two_close_boids_at_rest_part() {
    let mut flock = Flock::new(vec![boid(0, 0, 0, 0), boid(10_000, 0, 0, 0)], coarse());
    assert!(flock.can_step());
    flock.step(wide_window());
    // separation 500 away from the other, cohesion 50 toward it
    assert_eq!(flock.boids()[0], boid(-450, 0, -450, 0));
    assert_eq!(flock.boids()[1], boid(10_450, 0, 450, 0));
    for b in flock.boids() {
        assert!(speed_squared(b) > 0);
        assert!(speed_squared(b) <= 10_000 * 10_000);
    }
}

#[test]
fn a_boid_at_the_left_margin_turns_back() {
    let start = boid(-400_000, 0, -3_000, 0);
    let mut flock = Flock::new(vec![start], coarse());
    let mut velocities = Vec::new();
    let mut places = Vec::new();
    for _ in 0..9 {
        assert!(flock.can_step());
        flock.step(window());
        velocities.push(flock.boids()[0].velocity.x);
        places.push(flock.boids()[0].position.x);
        assert_eq!(flock.boids()[0].velocity.y, 0);
        assert_eq!(flock.boids()[0].position.y, 0);
    }
    assert_eq!(velocities, vec![-3_000, -2_000, -1_000, 0, 1_000, 2_000, 3_000, 3_000, 3_000]);
    assert_eq!(
        places,
        vec![-403_000, -405_000, -406_000, -406_000, -405_000, -403_000, -400_000, -397_000, -394_000]
    );
}

#[test]
fn step_reads_the_population_of_before_the_step() {
    let params = coarse();
    let before = vec![boid(0, 0, 2_000, 0), boid(20_000, 0, -2_000, 1_000), boid(35_000, 5_000, 0, -3_000)];
    let mut expected = before.clone();
    for i in 0..before.len() {
        let sep = before[i].separation(&before, i, &params);
        let align = before[i].alignment(&before, i, &params);
        let coh = before[i].cohesion(&before, i, &params);
        expected[i].check_border(wide_window(), &params);
        expected[i].update(Vec2::new(sep.x + align.x + coh.x, sep.y + align.y + coh.y), &params);
    }
    let mut flock = Flock::new(before.clone(), params);
    flock.step(wide_window());
    assert_eq!(flock.boids(), &expected[..]);
    assert_eq!(
        expected,
        vec![boid(-763, -288, -763, -288), boid(18_388, 637, -1_612, 637), boid(37_375, 2_650, 2_375, -2_350)]
    );

    // moving the boids one by one, each reading those moved before it, ends elsewhere
    let mut in_place = before.clone();
    for i in 0..in_place.len() {
        let sep = in_place[i].separation(&in_place, i, &params);
        let align = in_place[i].alignment(&in_place, i, &params);
        let coh = in_place[i].cohesion(&in_place, i, &params);
        in_place[i].check_border(wide_window(), &params);
        in_place[i].update(Vec2::new(sep.x + align.x + coh.x, sep.y + align.y + coh.y), &params);
    }
    assert_ne!(in_place, expected);
}

#[test]
fn steering_is_the_sum_of_the_three_rules() {
    let params = coarse();
    let boids = scattered(30);
    let flock = Flock::new(boids.clone(), params);
    assert!(flock.can_step());
    for i in 0..boids.len() {
        let sep = boids[i].separation(&boids, i, &params);
        let align = boids[i].alignment(&boids, i, &params);
        let coh = boids[i].cohesion(&boids, i, &params);
        assert_eq!(flock.steering(i), Vec2::new(sep.x + align.x + coh.x, sep.y + align.y + coh.y));
    }
}

#[test]
fn equal_runs_end_equal() {
    let windows = [window(), wide_window(), Rect::new(-300_000, 300_000, -200_000, 200_000)];
    let mut first = Flock::new(scattered(25), coarse());
    let mut second = Flock::new(scattered(25), coarse());
    for tick in 0..60 {
        assert!(first.can_step() && second.can_step());
        first.step(windows[tick % 3]);
        second.step(windows[tick % 3]);
        assert_eq!(first.boids(), second.boids());
    }
    assert_ne!(first.boids(), &scattered(25)[..]);
}

#[test]
fn step_keeps_the_count_the_order_and_the_parameters() {
    let mut params = coarse();
    params.cohesion_gain = 7;
    let mut flock = Flock::new(vec![boid(-200_000, 0, 100, 0), boid(200_000, 0, -100, 0)], params);
    flock.step(wide_window());
    assert_eq!(flock.len(), 2);
    assert_eq!(flock.params, params);
    assert_eq!(flock.boids(), &[boid(-199_900, 0, 100, 0), boid(199_900, 0, -100, 0)][..]);
}

#[test]
fn speed_cap_holds_after_every_step() {
    let mut flock = Flock::new(scattered(40), coarse());
    for _ in 0..40 {
        assert!(flock.can_step());
        flock.step(window());
        for b in flock.boids() {
            assert!(speed_squared(b) <= 10_000 * 10_000);
        }
    }
}

#[test]
fn step_moves_each_boid_by_its_new_velocity() {
    let before = scattered(20);
    let mut flock = Flock::new(before.clone(), coarse());
    flock.step(window());
    for (old, new) in before.iter().zip(flock.boids()) {
        assert_eq!(new.position.x, old.position.x + new.velocity.x);
        assert_eq!(new.position.y, old.position.y + new.velocity.y);
    }
}

#[test]
fn an_empty_flock_steps() {
    let mut flock = Flock::new(Vec::new(), coarse());
    assert!(flock.can_step());
    flock.step(window());
    assert_eq!(flock.len(), 0);
}

#[test]
fn can_step_within_the_coordinate_limit() {
    let params = coarse();
    let edge = boid(COORD_LIMIT, -COORD_LIMIT, -COORD_LIMIT, COORD_LIMIT);
    assert!(Flock::new(vec![edge, boid(0, 0, 0, 0)], params).can_step());
    assert!(!Flock::new(vec![boid(0, 0, 0, 0), boid(COORD_LIMIT + 1, 0, 0, 0)], params).can_step());
    assert!(!Flock::new(vec![boid(0, -COORD_LIMIT - 1, 0, 0)], params).can_step());
    assert!(!Flock::new(vec![boid(0, 0, COORD_LIMIT + 1, 0)], params).can_step());
    assert!(!Flock::new(vec![boid(0, 0, 0, i64::MIN)], params).can_step());
}

#[test]
fn can_step_up_to_the_largest_population() {
    let params = coarse();
    let full = vec![boid(0, 0, 0, 0); MAX_POPULATION];
    assert!(Flock::new(full, params).can_step());
    let over = vec![boid(0, 0, 0, 0); MAX_POPULATION + 1];
    assert!(!Flock::new(over, params).can_step());
}

#[test]
fn step_at_the_coordinate_limit() {
    let params = coarse();
    let mut flock = Flock::new(
        vec![boid(COORD_LIMIT, -COORD_LIMIT, COORD_LIMIT, -COORD_LIMIT), boid(COORD_LIMIT - 5_000, -COORD_LIMIT, -COORD_LIMIT, 0)],
        params,
    );
    assert!(flock.can_step());
    flock.step(wide_window());
    for b in flock.boids() {
        assert!(speed_squared(b) <= 10_000 * 10_000);
    }
    // beyond the right side and below the bottom of the window: pushed left and up
    assert!(flock.boids()[0].velocity.x > 0 && flock.boids()[0].velocity.y < 0);
    assert!(!flock.can_step());
}

#[test]
fn the_order_of_the_population_does_not_matter() {
    let before = scattered(12);
    let mut turned = before.clone();
    turned.swap(2, 9);
    turned.swap(0, 11);
    let mut flock = Flock::new(before, coarse());
    let mut other = Flock::new(turned, coarse());
    for _ in 0..20 {
        flock.step(window());
        other.step(window());
        let mut back = other.boids().to_vec();
        back.swap(0, 11);
        back.swap(2, 9);
        assert_eq!(flock.boids(), &back[..]);
    }
}
