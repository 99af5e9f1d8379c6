//! The three steering rules. Each looks at the other boids within a radius
//! of a boid and answers with a change of velocity.
use vstd::prelude::*;
use crate::boid::{Boid, BoidView};
use crate::vector::{
    abs, divide_away, lemma_quot_away_range, lemma_quot_range, magnitude, quot, Vec2, Vector,
};
use crate::world::{Params, COORD_LIMIT, GAIN_SCALE, MAX_POPULATION};

verus! {

/// No rule steers harder than this, on either axis, in a population of at
/// most `MAX_POPULATION` boids whose velocities are within `COORD_LIMIT`.
pub const STEER_LIMIT: i64 = 0x1000_0000_0000_0000;

/// What a rule adds up over the neighbours of a boid.
#[derive(Clone, Copy, Debug, PartialEq, Eq)]
pub enum Quantity {
    /// The way from the neighbour to the boid.
    Offset,
    /// The neighbour's position.
    Position,
    /// The neighbour's velocity.
    Velocity,
}

/// The states of a stored population.
pub open spec fn models(boids: Seq<Boid>) -> Seq<BoidView> {
    boids.map_values(|b: Boid| b@)
}

/// `a` and `b` are less than `radius` apart, by Euclidean distance.
pub open spec fn near(a: Vector, b: Vector, radius: int) -> bool {
    a.minus(b).norm_sq() < radius * radius
}

/// The boid at index `j` of `pop` counts for `me`, which stands at index
/// `own`: it is another boid, whatever its state, and is less than `radius`
/// away.
pub open spec fn is_neighbor(me: BoidView, pop: Seq<BoidView>, own: int, j: int, radius: int)
    -> bool {
    0 <= j < pop.len() && j != own && near(me.position, pop[j].position, radius)
}

/// What the neighbour `other` adds to the sum of `what` for `me`.
pub open spec fn contribution(me: BoidView, other: BoidView, what: Quantity) -> Vector {
    match what {
        Quantity::Offset => me.position.minus(other.position),
        Quantity::Position => other.position,
        Quantity::Velocity => other.velocity,
    }
}

/// The number of neighbours of `me` among the first `n` boids of `pop`.
pub open spec fn neighbor_count(me: BoidView, pop: Seq<BoidView>, own: int, radius: int, n: int)
    -> int
    decreases n,
{
    if n <= 0 {
        0
    } else {
        neighbor_count(me, pop, own, radius, n - 1) + if is_neighbor(me, pop, own, n - 1, radius) {
            1int
        } else {
            0int
        }
    }
}

/// The sum of `what` over the neighbours of `me` among the first `n` boids
/// of `pop`.
pub open spec fn neighbor_sum(
    me: BoidView,
    pop: Seq<BoidView>,
    own: int,
    radius: int,
    what: Quantity,
    n: int,
) -> Vector
    decreases n,
{
    if n <= 0 {
        Vector::zero()
    } else if is_neighbor(me, pop, own, n - 1, radius) {
        neighbor_sum(me, pop, own, radius, what, n - 1).plus(contribution(me, pop[n - 1], what))
    } else {
        neighbor_sum(me, pop, own, radius, what, n - 1)
    }
}

/// Separation: the sum of the ways from each boid within the separation
/// radius to `me`, times the separation gain, rounded away from zero. So
/// no push is too small to count: under a positive gain separation is zero
/// on an axis only where the ways cancel on it.
pub open spec fn separation_of(me: BoidView, pop: Seq<BoidView>, own: int, params: Params)
    -> Vector {
    neighbor_sum(
        me,
        pop,
        own,
        params.separation_radius as int,
        Quantity::Offset,
        pop.len() as int,
    ).scaled_away(params.separation_gain as int, GAIN_SCALE as int)
}

/// Alignment: the way from the velocity of `me` to the mean velocity of the
/// boids within the neighbour radius, times the alignment gain; zero where
/// there is no such boid. The mean and the product are rounded toward zero,
/// so alignment never goes beyond the mean.
pub open spec fn alignment_of(me: BoidView, pop: Seq<BoidView>, own: int, params: Params)
    -> Vector {
    let radius = params.neighbor_radius as int;
    let count = neighbor_count(me, pop, own, radius, pop.len() as int);
    let sum = neighbor_sum(me, pop, own, radius, Quantity::Velocity, pop.len() as int);
    if count > 0 {
        sum.scaled(1, count).minus(me.velocity).scaled(
            params.alignment_gain as int,
            GAIN_SCALE as int,
        )
    } else {
        Vector::zero()
    }
}

/// Cohesion: the way from the position of `me` to the mean position of the
/// boids within the neighbour radius, times the cohesion gain; zero where
/// there is no such boid. The mean and the product are rounded toward zero.
pub open spec fn cohesion_of(me: BoidView, pop: Seq<BoidView>, own: int, params: Params)
    -> Vector {
    let radius = params.neighbor_radius as int;
    let count = neighbor_count(me, pop, own, radius, pop.len() as int);
    let sum = neighbor_sum(me, pop, own, radius, Quantity::Position, pop.len() as int);
    if count > 0 {
        sum.scaled(1, count).minus(me.position).scaled(
            params.cohesion_gain as int,
            GAIN_SCALE as int,
        )
    } else {
        Vector::zero()
    }
}

/// Two points less than `radius` apart are less than `radius` apart on each
/// axis.
pub proof fn lemma_near_on_each_axis(a: Vector, b: Vector, radius: int)
    requires
        radius >= 0,
        near(a, b, radius),
    ensures
        abs(a.x - b.x) < radius,
        abs(a.y - b.y) < radius,
{
    let dx = abs(a.x - b.x);
    let dy = abs(a.y - b.y);
    assert(dx * dx == (a.x - b.x) * (a.x - b.x) && dy * dy == (a.y - b.y) * (a.y - b.y))
        by (nonlinear_arith)
        requires
            dx == abs(a.x - b.x),
            dy == abs(a.y - b.y),
    ;
    assert(dx < radius && dy < radius) by (nonlinear_arith)
        requires
            dx >= 0,
            dy >= 0,
            radius >= 0,
            dx * dx + dy * dy < radius * radius,
    ;
}

/// Where each neighbour among the first `n` contributes a vector between
/// `lo` and `hi`, their sum lies between the count times `lo` and the count
/// times `hi`.
pub proof fn lemma_neighbor_sum_bounds(
    me: BoidView,
    pop: Seq<BoidView>,
    own: int,
    radius: int,
    what: Quantity,
    n: int,
    lo: Vector,
    hi: Vector,
)
    requires
        n <= pop.len(),
        forall|j: int|
            0 <= j < n && #[trigger] is_neighbor(me, pop, own, j, radius) ==> {
                let c = contribution(me, pop[j], what);
                lo.x <= c.x <= hi.x && lo.y <= c.y <= hi.y
            },
    ensures
        0 <= neighbor_count(me, pop, own, radius, n) <= if n >= 0 {
            n
        } else {
            0
        },
        neighbor_count(me, pop, own, radius, n) * lo.x <= neighbor_sum(
            me,
            pop,
            own,
            radius,
            what,
            n,
        ).x <= neighbor_count(me, pop, own, radius, n) * hi.x,
        neighbor_count(me, pop, own, radius, n) * lo.y <= neighbor_sum(
            me,
            pop,
            own,
            radius,
            what,
            n,
        ).y <= neighbor_count(me, pop, own, radius, n) * hi.y,
    decreases n,
{
    if n > 0 {
        lemma_neighbor_sum_bounds(me, pop, own, radius, what, n - 1, lo, hi);
        let c = neighbor_count(me, pop, own, radius, n - 1);
        assert((c + 1) * lo.x == c * lo.x + lo.x && (c + 1) * hi.x == c * hi.x + hi.x && (c + 1)
            * lo.y == c * lo.y + lo.y && (c + 1) * hi.y == c * hi.y + hi.y) by (nonlinear_arith);
    }
}

/// The mean of `count` numbers between `lo` and `hi`, rounded toward zero,
/// lies between `lo` and `hi`.
pub proof fn lemma_mean_bounds(sum: int, count: int, lo: int, hi: int)
    requires
        count > 0,
        count * lo <= sum <= count * hi,
    ensures
        lo <= quot(sum, count) <= hi,
{
    lemma_quot_range(sum, count);
    let q = quot(sum, count);
    assert(lo <= q <= hi) by (nonlinear_arith)
        requires
            count > 0,
            count * lo <= sum <= count * hi,
            sum >= 0 ==> 0 <= q * count <= sum < (q + 1) * count,
            sum <= 0 ==> (q - 1) * count < sum <= q * count <= 0,
    ;
}

/// A vector within `bound`, times a gain, is within `bound * 66`, however
/// the product is rounded.
pub proof fn lemma_gain_bounds(v: Vector, gain: int, bound: int)
    requires
        0 <= gain <= u16::MAX,
        v.within(bound),
    ensures
        v.scaled(gain, GAIN_SCALE as int).within(bound * 66),
        v.scaled_away(gain, GAIN_SCALE as int).within(bound * 66),
{
    lemma_quot_range(v.x * gain, GAIN_SCALE as int);
    lemma_quot_range(v.y * gain, GAIN_SCALE as int);
    lemma_quot_away_range(v.x * gain, GAIN_SCALE as int);
    lemma_quot_away_range(v.y * gain, GAIN_SCALE as int);
    assert(abs(v.x * gain) <= bound * 65535 && abs(v.y * gain) <= bound * 65535)
        by (nonlinear_arith)
        requires
            0 <= gain <= 65535,
            -bound <= v.x <= bound,
            -bound <= v.y <= bound,
    ;
}

/// Separation stays within `STEER_LIMIT` in a population of at most
/// `MAX_POPULATION` boids.
pub proof fn lemma_separation_fits(me: BoidView, pop: Seq<BoidView>, own: int, params: Params)
    requires
        pop.len() <= MAX_POPULATION,
    ensures
        separation_of(me, pop, own, params).within(STEER_LIMIT as int),
{
    let radius = params.separation_radius as int;
    let n = pop.len() as int;
    let lo = Vector { x: -radius, y: -radius };
    let hi = Vector { x: radius, y: radius };
    assert forall|j: int| 0 <= j < n && #[trigger] is_neighbor(me, pop, own, j, radius) implies {
        let c = contribution(me, pop[j], Quantity::Offset);
        lo.x <= c.x <= hi.x && lo.y <= c.y <= hi.y
    } by {
        lemma_near_on_each_axis(me.position, pop[j].position, radius);
    }
    lemma_neighbor_sum_bounds(me, pop, own, radius, Quantity::Offset, n, lo, hi);
    let count = neighbor_count(me, pop, own, radius, n);
    let sum = neighbor_sum(me, pop, own, radius, Quantity::Offset, n);
    let bound: int = 0x10_0000_0000_0000int;
    assert(count * radius <= bound && count * (-radius) >= -bound) by (nonlinear_arith)
        requires
            0 <= count <= 0x10_0000,
            0 <= radius <= 0x1_0000_0000,
            bound == 0x10_0000_0000_0000,
    ;
    lemma_gain_bounds(sum, params.separation_gain as int, bound);
}

/// Alignment stays within `STEER_LIMIT` where the velocities are within
/// `COORD_LIMIT`.
pub proof fn lemma_alignment_fits(me: BoidView, pop: Seq<BoidView>, own: int, params: Params)
    requires
        me.velocity.within(COORD_LIMIT as int),
        forall|j: int|
            0 <= j < pop.len() ==> (#[trigger] pop[j]).velocity.within(COORD_LIMIT as int),
    ensures
        alignment_of(me, pop, own, params).within(STEER_LIMIT as int),
{
    let radius = params.neighbor_radius as int;
    let n = pop.len() as int;
    let limit = COORD_LIMIT as int;
    let lo = Vector { x: -limit, y: -limit };
    let hi = Vector { x: limit, y: limit };
    lemma_neighbor_sum_bounds(me, pop, own, radius, Quantity::Velocity, n, lo, hi);
    let count = neighbor_count(me, pop, own, radius, n);
    let sum = neighbor_sum(me, pop, own, radius, Quantity::Velocity, n);
    if count > 0 {
        lemma_mean_bounds(sum.x, count, lo.x, hi.x);
        lemma_mean_bounds(sum.y, count, lo.y, hi.y);
        lemma_gain_bounds(
            sum.scaled(1, count).minus(me.velocity),
            params.alignment_gain as int,
            2 * limit,
        );
    }
}

/// Cohesion never steers harder than the neighbour radius times the gain:
/// the mean of positions within the radius lies within the radius.
pub proof fn lemma_cohesion_fits(me: BoidView, pop: Seq<BoidView>, own: int, params: Params)
    ensures
        cohesion_of(me, pop, own, params).within(params.neighbor_radius * 66),
        cohesion_of(me, pop, own, params).within(STEER_LIMIT as int),
{
    let radius = params.neighbor_radius as int;
    let n = pop.len() as int;
    let lo = Vector { x: me.position.x - radius, y: me.position.y - radius };
    let hi = Vector { x: me.position.x + radius, y: me.position.y + radius };
    assert forall|j: int| 0 <= j < n && #[trigger] is_neighbor(me, pop, own, j, radius) implies {
        let c = contribution(me, pop[j], Quantity::Position);
        lo.x <= c.x <= hi.x && lo.y <= c.y <= hi.y
    } by {
        lemma_near_on_each_axis(me.position, pop[j].position, radius);
    }
    lemma_neighbor_sum_bounds(me, pop, own, radius, Quantity::Position, n, lo, hi);
    let count = neighbor_count(me, pop, own, radius, n);
    let sum = neighbor_sum(me, pop, own, radius, Quantity::Position, n);
    if count > 0 {
        lemma_mean_bounds(sum.x, count, lo.x, hi.x);
        lemma_mean_bounds(sum.y, count, lo.y, hi.y);
        lemma_gain_bounds(
            sum.scaled(1, count).minus(me.position),
            params.cohesion_gain as int,
            radius,
        );
    }
}

impl Boid {
    /// Whether `other` is less than `radius` away from this boid, by
    /// Euclidean distance.
    pub fn is_near(&self, other: &Boid, radius: u32) -> (b: bool)
        ensures
            b == near(self@.position, other@.position, radius as int),
    {
        let dx: u128 = magnitude(self.position.x as i128 - other.position.x as i128);
        let dy: u128 = magnitude(self.position.y as i128 - other.position.y as i128);
        let r: u128 = radius as u128;
        assert(dx * dx <= 0xffff_ffff_ffff_ffff * 0xffff_ffff_ffff_ffff && dy * dy
            <= 0xffff_ffff_ffff_ffff * 0xffff_ffff_ffff_ffff && r * r <= 0xffff_ffff
            * 0xffff_ffff) by (nonlinear_arith)
            requires
                dx <= 0xffff_ffff_ffff_ffff,
                dy <= 0xffff_ffff_ffff_ffff,
                r <= 0xffff_ffff,
        ;
        assert(dx * dx + dy * dy == self@.position.minus(other@.position).norm_sq())
            by (nonlinear_arith)
            requires
                dx == abs(self.position.x - other.position.x),
                dy == abs(self.position.y - other.position.y),
                self@.position.minus(other@.position).norm_sq() == (self.position.x
                    - other.position.x) * (self.position.x - other.position.x) + (self.position.y
                    - other.position.y) * (self.position.y - other.position.y),
        ;
        match (dx * dx).checked_add(dy * dy) {
            Some(d) => d < r * r,
            None => false,
        }
    }

    /// The number of neighbours of this boid in `boids`, and the sum of
    /// `what` over them.
    fn tally(&self, boids: &[Boid], own: usize, radius: u32, what: Quantity) -> (t: (
        usize,
        i128,
        i128,
    ))
        ensures
            t.0 == neighbor_count(
                self@,
                models(boids@),
                own as int,
                radius as int,
                boids.len() as int,
            ),
            neighbor_sum(self@, models(boids@), own as int, radius as int, what, boids.len() as int)
                == (Vector { x: t.1 as int, y: t.2 as int }),
            t.0 <= boids.len(),
            what is Offset ==> abs(t.1 as int) <= t.0 * 0x1_0000_0000 && abs(t.2 as int) <= t.0
                * 0x1_0000_0000,
    {
        let n: usize = boids.len();
        let ghost pop = models(boids@);
        let ghost me = self@;
        let mut i: usize = 0;
        let mut count: usize = 0;
        let mut x: i128 = 0;
        let mut y: i128 = 0;
        while i < n
            invariant
                n == boids.len(),
                pop == models(boids@),
                me == self@,
                i <= n,
                count <= i,
                count == neighbor_count(me, pop, own as int, radius as int, i as int),
                neighbor_sum(me, pop, own as int, radius as int, what, i as int) == (Vector {
                    x: x as int,
                    y: y as int,
                }),
                what is Offset ==> abs(x as int) <= count * 0x1_0000_0000 && abs(y as int) <= count
                    * 0x1_0000_0000,
                !(what is Offset) ==> abs(x as int) <= count * 0x8000_0000_0000_0000 && abs(
                    y as int,
                ) <= count * 0x8000_0000_0000_0000,
            decreases n - i,
        {
            let other: &Boid = &boids[i];
            assert(pop[i as int] == other@);
            if i != own && self.is_near(other, radius) {
                let (tx, ty): (i128, i128) = match what {
                    Quantity::Offset => (
                        self.position.x as i128 - other.position.x as i128,
                        self.position.y as i128 - other.position.y as i128,
                    ),
                    Quantity::Position => (other.position.x as i128, other.position.y as i128),
                    Quantity::Velocity => (other.velocity.x as i128, other.velocity.y as i128),
                };
                proof {
                    if what is Offset {
                        lemma_near_on_each_axis(me.position, other@.position, radius as int);
                    }
                }
                x = x + tx;
                y = y + ty;
                count = count + 1;
            }
            i = i + 1;
        }
        (count, x, y)
    }

    /// Separation: steers this boid away from the boids of `boids` that are
    /// within the separation radius. `own` is this boid's own index in
    /// `boids`; the boid at that index is passed over. With more than
    /// `MAX_POPULATION` boids the answer might not be storable.
    pub fn separation(&self, boids: &[Boid], own: usize, params: &Params) -> (steer: Vec2)
        requires
            boids.len() <= MAX_POPULATION,
        ensures
            steer@ == separation_of(self@, models(boids@), own as int, *params),
            steer@.within(STEER_LIMIT as int),
    {
        proof {
            lemma_separation_fits(self@, models(boids@), own as int, *params);
        }
        let (count, sx, sy): (usize, i128, i128) = self.tally(
            boids,
            own,
            params.separation_radius,
            Quantity::Offset,
        );
        let gain: i128 = params.separation_gain as i128;
        assert(abs(sx * gain) <= 0x1_0000_0000_0000_0000 * 0x1_0000_0000 * 0x1_0000 && abs(
            sy * gain,
        ) <= 0x1_0000_0000_0000_0000 * 0x1_0000_0000 * 0x1_0000) by (nonlinear_arith)
            requires
                0 <= gain < 0x1_0000,
                0 <= count < 0x1_0000_0000_0000_0000,
                abs(sx as int) <= count * 0x1_0000_0000,
                abs(sy as int) <= count * 0x1_0000_0000,
        ;
        let x: i128 = divide_away(sx * gain, GAIN_SCALE as i128);
        let y: i128 = divide_away(sy * gain, GAIN_SCALE as i128);
        Vec2 { x: x as i64, y: y as i64 }
    }

    /// Alignment: steers this boid toward the mean velocity of the boids of
    /// `boids` that are within the neighbour radius. `own` is this boid's own
    /// index in `boids`; the boid at that index is passed over. With
    /// velocities beyond `COORD_LIMIT` the answer might not be storable.
    pub fn alignment(&self, boids: &[Boid], own: usize, params: &Params) -> (steer: Vec2)
        requires
            self.velocity@.within(COORD_LIMIT as int),
            forall|j: int|
                0 <= j < boids.len() ==> (#[trigger] boids[j]).velocity@.within(COORD_LIMIT as int),
        ensures
            steer@ == alignment_of(self@, models(boids@), own as int, *params),
            steer@.within(STEER_LIMIT as int),
    {
        proof {
            let pop = models(boids@);
            assert forall|j: int| 0 <= j < pop.len() implies (#[trigger] pop[j]).velocity.within(
                COORD_LIMIT as int,
            ) by {
                assert(pop[j] == boids[j]@);
            }
            lemma_alignment_fits(self@, pop, own as int, *params);
        }
        let (count, sx, sy): (usize, i128, i128) = self.tally(
            boids,
            own,
            params.neighbor_radius,
            Quantity::Velocity,
        );
        if count > 0 {
            let ghost pop = models(boids@);
            let ghost lo = Vector { x: i64::MIN as int, y: i64::MIN as int };
            let ghost hi = Vector { x: i64::MAX as int, y: i64::MAX as int };
            proof {
                lemma_neighbor_sum_bounds(
                    self@,
                    pop,
                    own as int,
                    params.neighbor_radius as int,
                    Quantity::Velocity,
                    boids.len() as int,
                    lo,
                    hi,
                );
                lemma_mean_bounds(sx as int, count as int, lo.x, hi.x);
                lemma_mean_bounds(sy as int, count as int, lo.y, hi.y);
            }
            let c: i128 = count as i128;
            let gain: i128 = params.alignment_gain as i128;
            let dx: i128 = sx / c - self.velocity.x as i128;
            let dy: i128 = sy / c - self.velocity.y as i128;
            assert(abs(dx * gain) <= 0x1_0000_0000_0000_0000 * 0x1_0000 && abs(dy * gain)
                <= 0x1_0000_0000_0000_0000 * 0x1_0000) by (nonlinear_arith)
                requires
                    0 <= gain < 0x1_0000,
                    abs(dx as int) <= 0x1_0000_0000_0000_0000,
                    abs(dy as int) <= 0x1_0000_0000_0000_0000,
            ;
            let x: i128 = dx * gain / (GAIN_SCALE as i128);
            let y: i128 = dy * gain / (GAIN_SCALE as i128);
            Vec2 { x: x as i64, y: y as i64 }
        } else {
            Vec2 { x: 0, y: 0 }
        }
    }

    /// Cohesion: steers this boid toward the mean position of the boids of
    /// `boids` that are within the neighbour radius. `own` is this boid's own
    /// index in `boids`; the boid at that index is passed over.
    pub fn cohesion(&self, boids: &[Boid], own: usize, params: &Params) -> (steer: Vec2)
        ensures
            steer@ == cohesion_of(self@, models(boids@), own as int, *params),
            steer@.within(STEER_LIMIT as int),
    {
        let (count, sx, sy): (usize, i128, i128) = self.tally(
            boids,
            own,
            params.neighbor_radius,
            Quantity::Position,
        );
        proof {
            lemma_cohesion_fits(self@, models(boids@), own as int, *params);
        }
        if count > 0 {
            let ghost pop = models(boids@);
            let ghost lo = Vector { x: i64::MIN as int, y: i64::MIN as int };
            let ghost hi = Vector { x: i64::MAX as int, y: i64::MAX as int };
            proof {
                lemma_neighbor_sum_bounds(
                    self@,
                    pop,
                    own as int,
                    params.neighbor_radius as int,
                    Quantity::Position,
                    boids.len() as int,
                    lo,
                    hi,
                );
                lemma_mean_bounds(sx as int, count as int, lo.x, hi.x);
                lemma_mean_bounds(sy as int, count as int, lo.y, hi.y);
            }
            let c: i128 = count as i128;
            let gain: i128 = params.cohesion_gain as i128;
            let dx: i128 = sx / c - self.position.x as i128;
            let dy: i128 = sy / c - self.position.y as i128;
            assert(abs(dx * gain) <= 0x1_0000_0000_0000_0000 * 0x1_0000 && abs(dy * gain)
                <= 0x1_0000_0000_0000_0000 * 0x1_0000) by (nonlinear_arith)
                requires
                    0 <= gain < 0x1_0000,
                    abs(dx as int) <= 0x1_0000_0000_0000_0000,
                    abs(dy as int) <= 0x1_0000_0000_0000_0000,
            ;
            let x: i128 = dx * gain / (GAIN_SCALE as i128);
            let y: i128 = dy * gain / (GAIN_SCALE as i128);
            Vec2 { x: x as i64, y: y as i64 }
        } else {
            Vec2 { x: 0, y: 0 }
        }
    }
}

} // verus!
