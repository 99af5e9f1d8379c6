//! A flock: a population of boids with the parameters of its rules, and the
//! step that moves all of them at once.
use vstd::prelude::*;
use crate::boid::{Boid, BoidView};
use crate::rules::{alignment_of, cohesion_of, models, separation_of, STEER_LIMIT};
use crate::speed::lemma_limited_is_capped;
use crate::vector::{Vec2, Vector};
use crate::world::{Params, Rect, COORD_LIMIT, MAX_POPULATION};

verus! {

/// What the three rules together add to the velocity of the boid at index
/// `i` of `pop`.
pub open spec fn steering(pop: Seq<BoidView>, i: int, params: Params) -> Vector {
    separation_of(pop[i], pop, i, params).plus(alignment_of(pop[i], pop, i, params)).plus(
        cohesion_of(pop[i], pop, i, params),
    )
}

/// The boid at index `i` of `pop` after one step in `window`: pushed by the
/// border, then updated by what the rules say of `pop`.
pub open spec fn next_boid(pop: Seq<BoidView>, i: int, window: Rect, params: Params) -> BoidView {
    pop[i].nudged(window, params).updated(steering(pop, i, params), params)
}

/// The population after one step in `window`. Every boid is moved by what
/// the rules say of `pop`, the population before the step.
pub open spec fn stepped(pop: Seq<BoidView>, window: Rect, params: Params) -> Seq<BoidView> {
    Seq::new(pop.len(), |i: int| next_boid(pop, i, window, params))
}

/// The population after one step in each of `windows`, in turn.
pub open spec fn run(pop: Seq<BoidView>, windows: Seq<Rect>, params: Params) -> Seq<BoidView>
    decreases windows.len(),
{
    if windows.len() == 0 {
        pop
    } else {
        stepped(run(pop, windows.drop_last(), params), windows.last(), params)
    }
}

/// A population that can take a step: it has at most `MAX_POPULATION`
/// boids, each with its position and its velocity within `COORD_LIMIT`.
pub open spec fn steppable(pop: Seq<BoidView>) -> bool {
    &&& pop.len() <= MAX_POPULATION
    &&& forall|i: int|
        0 <= i < pop.len() ==> (#[trigger] pop[i]).position.within(COORD_LIMIT as int)
            && pop[i].velocity.within(COORD_LIMIT as int)
}

/// A population of boids, in a fixed order, and the parameters of its rules.
pub struct Flock {
    pub boids: Vec<Boid>,
    pub params: Params,
}

impl View for Flock {
    type V = Seq<BoidView>;

    open spec fn view(&self) -> Seq<BoidView> {
        models(self.boids@)
    }
}

/// Whether both components of `v` are within `COORD_LIMIT`.
fn in_limit(v: Vec2) -> (b: bool)
    ensures
        b == v@.within(COORD_LIMIT as int),
{
    -COORD_LIMIT <= v.x && v.x <= COORD_LIMIT && -COORD_LIMIT <= v.y && v.y <= COORD_LIMIT
}

impl Flock {
    pub fn new(boids: Vec<Boid>, params: Params) -> (flock: Flock)
        ensures
            flock.boids == boids,
            flock.params == params,
    {
        Flock { boids, params }
    }

    /// The number of boids.
    pub fn len(&self) -> (n: usize)
        ensures
            n == self@.len(),
    {
        self.boids.len()
    }

    /// The boids, in their order.
    pub fn boids(&self) -> (boids: &[Boid])
        ensures
            boids@ == self.boids@,
    {
        self.boids.as_slice()
    }

    /// Whether the flock can take a step.
    pub fn can_step(&self) -> (ok: bool)
        ensures
            ok == steppable(self@),
    {
        let n: usize = self.boids.len();
        if n > MAX_POPULATION {
            return false;
        }
        let mut i: usize = 0;
        while i < n
            invariant
                n == self.boids.len(),
                i <= n,
                forall|k: int|
                    0 <= k < i ==> (#[trigger] self@[k]).position.within(COORD_LIMIT as int)
                        && self@[k].velocity.within(COORD_LIMIT as int),
            decreases n - i,
        {
            let boid: &Boid = &self.boids[i];
            assert(self@[i as int] == boid@);
            if !in_limit(boid.position) || !in_limit(boid.velocity) {
                return false;
            }
            i = i + 1;
        }
        true
    }

    /// What the three rules together add to the velocity of the boid at
    /// index `i`.
    pub fn steering(&self, i: usize) -> (delta: Vec2)
        requires
            steppable(self@),
            i < self@.len(),
        ensures
            delta@ == steering(self@, i as int, self.params),
            delta@.within(3 * STEER_LIMIT),
    {
        let boid: &Boid = &self.boids[i];
        let ghost pop = self@;
        assert(pop[i as int] == boid@);
        assert forall|j: int| 0 <= j < self.boids.len() implies (#[trigger] self.boids[j])
            .velocity@.within(COORD_LIMIT as int) by {
            assert(pop[j] == self.boids[j]@);
        }
        let sep: Vec2 = boid.separation(self.boids.as_slice(), i, &self.params);
        let align: Vec2 = boid.alignment(self.boids.as_slice(), i, &self.params);
        let coh: Vec2 = boid.cohesion(self.boids.as_slice(), i, &self.params);
        Vec2 { x: sep.x + align.x + coh.x, y: sep.y + align.y + coh.y }
    }

    /// One step of the whole flock in `window`. The rules are read off the
    /// population as it stands before the step, for every boid, and only then
    /// is any boid moved: each is pushed by the border, steered, capped in
    /// speed and moved, in the order of the population.
    pub fn step(&mut self, window: Rect)
        requires
            steppable(old(self)@),
        ensures
            final(self).params == old(self).params,
            final(self)@ == stepped(old(self)@, window, old(self).params),
            forall|i: int|
                0 <= i < final(self)@.len() ==> (#[trigger] final(self)@[i]).is_capped(
                    old(self).params,
                ),
    {
        let n: usize = self.boids.len();
        let params: Params = self.params;
        let ghost pop = self@;
        let mut deltas: Vec<Vec2> = Vec::with_capacity(n);
        let mut i: usize = 0;
        while i < n
            invariant
                n == self.boids.len(),
                *self == *old(self),
                pop == self@,
                steppable(pop),
                params == self.params,
                i <= n,
                deltas.len() == i,
                forall|k: int|
                    0 <= k < i ==> (#[trigger] deltas[k])@ == steering(pop, k, params)
                        && deltas[k]@.within(3 * STEER_LIMIT),
            decreases n - i,
        {
            let delta: Vec2 = self.steering(i);
            deltas.push(delta);
            i = i + 1;
        }
        i = 0;
        while i < n
            invariant
                n == self.boids.len(),
                n == pop.len(),
                pop == old(self)@,
                self.params == params,
                params == old(self).params,
                steppable(pop),
                i <= n,
                deltas.len() == n,
                forall|k: int|
                    0 <= k < n ==> (#[trigger] deltas[k])@ == steering(pop, k, params)
                        && deltas[k]@.within(3 * STEER_LIMIT),
                forall|k: int|
                    0 <= k < i ==> (#[trigger] self.boids[k])@ == next_boid(pop, k, window, params),
                forall|k: int| i <= k < n ==> (#[trigger] self.boids[k])@ == pop[k],
            decreases n - i,
        {
            let mut boid: Boid = self.boids[i];
            let delta: Vec2 = deltas[i];
            assert(boid@ == pop[i as int]);
            assert(pop[i as int].position.within(COORD_LIMIT as int));
            boid.check_border(window, &params);
            boid.update(delta, &params);
            self.boids.set(i, boid);
            i = i + 1;
        }
        assert(self@ =~= stepped(pop, window, params));
        assert forall|i: int| 0 <= i < self@.len() implies (#[trigger] self@[i]).is_capped(
            params,
        ) by {
            lemma_limited_is_capped(
                pop[i].nudged(window, params).velocity.plus(steering(pop, i, params)),
                params.speed_limit as int,
            );
        }
    }
}

} // verus!
