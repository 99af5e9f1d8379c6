//! A boid: its state, and what one step does to it.
use vstd::prelude::*;
use crate::speed::{
    ceil_sqrt_u128, lemma_capped_length, lemma_limited_is_capped, lemma_scaled_is_capped, limited,
};
use crate::vector::{abs, magnitude, Vec2, Vector};
use crate::world::{Params, Rect};

verus! {

/// The state of a boid, over unbounded integers.
pub struct BoidView {
    pub position: Vector,
    pub velocity: Vector,
}

/// What the border of a window adds to one component of a velocity, where
/// `coordinate` is the boid's place on that axis and `low` and `high` are the
/// window's two sides on it: `turn` within `margin` of the low side, minus
/// `turn` within `margin` of the high side.
pub open spec fn border_push(coordinate: int, low: int, high: int, margin: int, turn: int) -> int {
    (if coordinate < low + margin {
        turn
    } else {
        0
    }) - (if coordinate > high - margin {
        turn
    } else {
        0
    })
}

impl BoidView {
    /// The boid after the border of `window` has pushed on its velocity.
    pub open spec fn nudged(self, window: Rect, params: Params) -> BoidView {
        BoidView {
            position: self.position,
            velocity: Vector {
                x: self.velocity.x + border_push(
                    self.position.x,
                    window.left as int,
                    window.right as int,
                    params.margin as int,
                    params.border_turn as int,
                ),
                y: self.velocity.y + border_push(
                    self.position.y,
                    window.bottom as int,
                    window.top as int,
                    params.margin as int,
                    params.border_turn as int,
                ),
            },
        }
    }

    /// The boid after `delta` was added to its velocity, the speed cap
    /// applied, and the position moved by the new velocity.
    pub open spec fn updated(self, delta: Vector, params: Params) -> BoidView {
        let velocity = limited(self.velocity.plus(delta), params.speed_limit as int);
        BoidView { position: self.position.plus(velocity), velocity }
    }

    /// The position can move by the speed cap, either way on either axis,
    /// and still be stored.
    pub open spec fn has_room(self, params: Params) -> bool {
        &&& i64::MIN + params.speed_limit <= self.position.x <= i64::MAX - params.speed_limit
        &&& i64::MIN + params.speed_limit <= self.position.y <= i64::MAX - params.speed_limit
    }

    /// The speed is at most the cap.
    pub open spec fn is_capped(self, params: Params) -> bool {
        self.velocity.norm_sq() <= params.speed_limit * params.speed_limit
    }
}

/// A boid: a position and a velocity, in grid steps and steps per tick.
#[derive(Clone, Copy, Debug, PartialEq, Eq)]
pub struct Boid {
    pub position: Vec2,
    pub velocity: Vec2,
}

impl View for Boid {
    type V = BoidView;

    open spec fn view(&self) -> BoidView {
        BoidView { position: self.position@, velocity: self.velocity@ }
    }
}

/// One velocity component after the border push.
fn pushed(velocity: i64, coordinate: i64, low: i64, high: i64, params: &Params) -> (v: i128)
    ensures
        v == velocity + border_push(
            coordinate as int,
            low as int,
            high as int,
            params.margin as int,
            params.border_turn as int,
        ),
{
    let mut v: i128 = velocity as i128;
    if (coordinate as i128) < low as i128 + params.margin as i128 {
        v = v + params.border_turn as i128;
    }
    if coordinate as i128 > high as i128 - params.margin as i128 {
        v = v - params.border_turn as i128;
    }
    v
}

impl Boid {
    pub fn new(position: Vec2, velocity: Vec2) -> (boid: Boid)
        ensures
            boid.position == position,
            boid.velocity == velocity,
    {
        Boid { position, velocity }
    }

    /// Adds `velocity` to the boid's velocity, caps the speed, and moves the
    /// boid by its new velocity. The sum of the two velocities must be
    /// storable, and the position must have room for a move at the speed cap.
    /// Where the sum is longer than the cap, the new velocity is at most
    /// three steps shorter than the cap.
    pub fn update(&mut self, velocity: Vec2, params: &Params)
        requires
            old(self).velocity@.plus(velocity@).representable(),
            old(self)@.has_room(*params),
        ensures
            final(self)@ == old(self)@.updated(velocity@, *params),
            final(self)@.is_capped(*params),
            old(self).velocity@.plus(velocity@).norm_sq() > params.speed_limit * params.speed_limit
                && params.speed_limit >= 3 ==> (params.speed_limit - 3) * (params.speed_limit - 3)
                <= final(self).velocity@.norm_sq(),
    {
        self.velocity = Vec2 { x: self.velocity.x + velocity.x, y: self.velocity.y + velocity.y };
        self.speed_limit(params);
        self.position = Vec2 {
            x: self.position.x + self.velocity.x,
            y: self.position.y + self.velocity.y,
        };
    }

    /// Caps the speed: a velocity longer than `params.speed_limit` is
    /// shortened along its direction, each component rounded toward zero,
    /// to a length that is never beyond the cap and at most three steps
    /// short of it; any other is kept.
    pub fn speed_limit(&mut self, params: &Params)
        ensures
            final(self).position == old(self).position,
            final(self).velocity@ == limited(old(self).velocity@, params.speed_limit as int),
            final(self)@.is_capped(*params),
            final(self).velocity@.within(params.speed_limit as int),
            !old(self)@.is_capped(*params) && params.speed_limit >= 3 ==> (params.speed_limit - 3)
                * (params.speed_limit - 3) <= final(self).velocity@.norm_sq(),
    {
        let x: u128 = magnitude(self.velocity.x as i128);
        let y: u128 = magnitude(self.velocity.y as i128);
        let cap: u128 = params.speed_limit as u128;
        assert(x * x <= 0x4000_0000_0000_0000_0000_0000_0000_0000 && y * y
            <= 0x4000_0000_0000_0000_0000_0000_0000_0000 && cap * cap < 0x1_0000_0000_0000_0000)
            by (nonlinear_arith)
            requires
                x <= 0x8000_0000_0000_0000,
                y <= 0x8000_0000_0000_0000,
                cap < 0x1_0000_0000,
        ;
        assert(x * x + y * y == self.velocity@.norm_sq()) by (nonlinear_arith)
            requires
                x == abs(self.velocity.x as int),
                y == abs(self.velocity.y as int),
                self.velocity@.norm_sq() == self.velocity.x * self.velocity.x + self.velocity.y
                    * self.velocity.y,
        ;
        let n: u128 = x * x + y * y;
        proof {
            lemma_limited_is_capped(self.velocity@, cap as int);
            if n > cap * cap && cap >= 3 {
                lemma_capped_length(self.velocity@, cap as int);
            }
        }
        if n > cap * cap {
            let s: u128 = ceil_sqrt_u128(n);
            assert(s > 0) by (nonlinear_arith)
                requires
                    s * s >= n,
                    n > cap * cap,
            ;
            proof {
                lemma_scaled_is_capped(self.velocity@, cap as int, s as int);
            }
            assert(-0x8000_0000_0000_0000_0000_0000 <= self.velocity.x * cap
                <= 0x8000_0000_0000_0000_0000_0000 && -0x8000_0000_0000_0000_0000_0000
                <= self.velocity.y * cap <= 0x8000_0000_0000_0000_0000_0000) by (nonlinear_arith)
                requires
                    cap < 0x1_0000_0000,
                    -0x8000_0000_0000_0000 <= self.velocity.x <= 0x8000_0000_0000_0000,
                    -0x8000_0000_0000_0000 <= self.velocity.y <= 0x8000_0000_0000_0000,
            ;
            let vx: i128 = (self.velocity.x as i128) * (cap as i128) / (s as i128);
            let vy: i128 = (self.velocity.y as i128) * (cap as i128) / (s as i128);
            self.velocity = Vec2 { x: vx as i64, y: vy as i64 };
        }
    }

    /// Pushes the velocity back toward the inside of `window` on each axis
    /// on which the boid is within the margin of a side. The position stays.
    pub fn check_border(&mut self, window: Rect, params: &Params)
        requires
            old(self)@.nudged(window, *params).velocity.representable(),
        ensures
            final(self)@ == old(self)@.nudged(window, *params),
    {
        let vx: i128 = pushed(self.velocity.x, self.position.x, window.left, window.right, params);
        let vy: i128 = pushed(self.velocity.y, self.position.y, window.bottom, window.top, params);
        self.velocity = Vec2 { x: vx as i64, y: vy as i64 };
    }
}

} // verus!
