//! What holds of the rules and of the step, for every population.
use vstd::prelude::*;
use crate::boid::{border_push, BoidView};
use crate::flock::{next_boid, run, steering, steppable, stepped};
use crate::rules::{
    alignment_of, cohesion_of, contribution, is_neighbor, near, neighbor_count, neighbor_sum,
    separation_of, Quantity,
};
use crate::speed::{
    lemma_capped_length, lemma_ceil_sqrt_exists, lemma_limited_is_capped, limited, speed,
};
use crate::vector::{
    abs, lemma_quot_away_range, lemma_quot_odd, lemma_quot_range, quot, quot_away, Vector,
};
use crate::world::{Params, Rect, COORD_LIMIT, GAIN_SCALE};

verus! {

/// After an update the speed is at most the cap, whatever the boid and
/// whatever was added to its velocity.
pub proof fn law_update_caps_speed(boid: BoidView, delta: Vector, params: Params)
    ensures
        boid.updated(delta, params).is_capped(params),
        boid.updated(delta, params).velocity.within(params.speed_limit as int),
{
    lemma_limited_is_capped(boid.velocity.plus(delta), params.speed_limit as int);
}

/// What the cap does to a velocity longer than `limit`: with `s` the length
/// rounded up to whole steps, each component of the capped velocity is the
/// component times `limit / s`, less than one step short of it in magnitude.
/// So the capped velocity is never longer than `limit` and at most three
/// steps shorter, it points along the velocity (a positive dot product),
/// and it leaves the velocity's line by less than a step (the cross product
/// is smaller than the velocity's components together).
pub proof fn law_cap_shortens_along_the_velocity(v: Vector, limit: int)
    requires
        limit >= 0,
        v.norm_sq() > limit * limit,
    ensures
        speed(v) > 0,
        (speed(v) - 1) * (speed(v) - 1) < v.norm_sq() <= speed(v) * speed(v),
        abs(v.x * limit) - speed(v) < abs(limited(v, limit).x * speed(v)) <= abs(v.x * limit),
        abs(v.y * limit) - speed(v) < abs(limited(v, limit).y * speed(v)) <= abs(v.y * limit),
        limited(v, limit).x * v.x >= 0,
        limited(v, limit).y * v.y >= 0,
        limited(v, limit).norm_sq() <= limit * limit,
        limit >= 3 ==> (limit - 3) * (limit - 3) <= limited(v, limit).norm_sq(),
        limit > 3 ==> limited(v, limit).dot(v) > 0,
        abs(limited(v, limit).cross(v)) < abs(v.x) + abs(v.y),
{
    let s = speed(v);
    let w = limited(v, limit);
    lemma_ceil_sqrt_exists(v.norm_sq());
    lemma_limited_is_capped(v, limit);
    assert(s > 0) by (nonlinear_arith)
        requires
            s >= 0,
            s * s >= v.norm_sq(),
            v.norm_sq() > limit * limit,
    ;
    lemma_component_of_scaled(v.x, limit, s);
    lemma_component_of_scaled(v.y, limit, s);
    if limit >= 3 {
        lemma_capped_length(v, limit);
    }
    if limit > 3 {
        assert(w.x * w.x + w.y * w.y > 0) by (nonlinear_arith)
            requires
                (limit - 3) * (limit - 3) <= w.x * w.x + w.y * w.y,
                limit > 3,
        ;
        assert(w.x * v.x + w.y * v.y > 0) by (nonlinear_arith)
            requires
                w.x * w.x + w.y * w.y > 0,
                w.x * v.x >= 0,
                w.y * v.y >= 0,
                w.x != 0 ==> v.x != 0,
                w.y != 0 ==> v.y != 0,
        ;
    }
    // what rounding took off each component, times `s`
    let rx = v.x * limit - w.x * s;
    let ry = v.y * limit - w.y * s;
    let mx = abs(v.x);
    let my = abs(v.y);
    assert(mx + my > 0) by (nonlinear_arith)
        requires
            v.x * v.x + v.y * v.y > limit * limit,
            mx == abs(v.x),
            my == abs(v.y),
    ;
    let wxs = w.x * s;
    let wys = w.y * s;
    let xl = v.x * limit;
    let yl = v.y * limit;
    let wxy = w.x * v.y;
    let wyx = w.y * v.x;
    assert((wxy - wyx) * s == wxy * s - wyx * s) by (nonlinear_arith);
    assert(wxy * s == wxs * v.y && wyx * s == wys * v.x) by (nonlinear_arith)
        requires
            wxy == w.x * v.y,
            wyx == w.y * v.x,
            wxs == w.x * s,
            wys == w.y * s,
    ;
    assert((xl - rx) * v.y == xl * v.y - rx * v.y && (yl - ry) * v.x == yl * v.x - ry * v.x)
        by (nonlinear_arith);
    assert(xl * v.y == yl * v.x) by (nonlinear_arith)
        requires
            xl == v.x * limit,
            yl == v.y * limit,
    ;
    assert(w.cross(v) * s == ry * v.x - rx * v.y);
    assert(abs(ry * v.x) <= (s - 1) * mx && abs(rx * v.y) <= (s - 1) * my) by (nonlinear_arith)
        requires
            -(s - 1) <= rx <= s - 1,
            -(s - 1) <= ry <= s - 1,
            mx == abs(v.x),
            my == abs(v.y),
            s > 0,
    ;
    let c = abs(w.cross(v));
    assert(c * s == abs(w.cross(v) * s)) by (nonlinear_arith)
        requires
            c == abs(w.cross(v)),
            s > 0,
    ;
    assert(c < mx + my) by (nonlinear_arith)
        requires
            c * s <= (s - 1) * mx + (s - 1) * my,
            mx + my > 0,
            s > 0,
            c >= 0,
    ;
}

/// One component `c` times `num / den`, rounded toward zero.
proof fn lemma_component_of_scaled(c: int, num: int, den: int)
    requires
        num >= 0,
        den > 0,
    ensures
        abs(c * num) - den < abs(quot(c * num, den) * den) <= abs(c * num),
        -(den - 1) <= c * num - quot(c * num, den) * den <= den - 1,
        quot(c * num, den) * c >= 0,
        quot(c * num, den) != 0 ==> c != 0,
{
    let q = quot(c * num, den);
    lemma_quot_range(c * num, den);
    if c == 0 {
        assert(c * num == 0);
    }
    assert(q * c >= 0) by (nonlinear_arith)
        requires
            num >= 0,
            c * num >= 0 ==> q >= 0,
            c * num <= 0 ==> q <= 0,
            c * num == 0 ==> q == 0,
    ;
    assert((q - 1) * den == q * den - den && (q + 1) * den == q * den + den) by (nonlinear_arith);
}

/// After a step every boid's speed is at most the cap.
pub proof fn law_step_caps_speed(pop: Seq<BoidView>, window: Rect, params: Params)
    ensures
        forall|i: int|
            0 <= i < pop.len() ==> (#[trigger] stepped(pop, window, params)[i]).is_capped(params),
{
    assert forall|i: int| 0 <= i < pop.len() implies (#[trigger] stepped(
        pop,
        window,
        params,
    )[i]).is_capped(params) by {
        law_update_caps_speed(pop[i].nudged(window, params), steering(pop, i, params), params);
    }
}

/// A step keeps the number of boids, and moves each boid by its new
/// velocity: by no more than the speed cap on either axis.
pub proof fn law_step_moves_by_velocity(pop: Seq<BoidView>, window: Rect, params: Params, i: int)
    requires
        0 <= i < pop.len(),
    ensures
        stepped(pop, window, params).len() == pop.len(),
        stepped(pop, window, params)[i].position == pop[i].position.plus(
            stepped(pop, window, params)[i].velocity,
        ),
        stepped(pop, window, params)[i].position.minus(pop[i].position).within(
            params.speed_limit as int,
        ),
{
    law_update_caps_speed(pop[i].nudged(window, params), steering(pop, i, params), params);
}

/// A population that can step, with room for one move at the speed cap
/// inside `COORD_LIMIT`, can step again after the step.
pub proof fn law_step_stays_steppable(pop: Seq<BoidView>, window: Rect, params: Params)
    requires
        steppable(pop),
        forall|i: int|
            0 <= i < pop.len() ==> (#[trigger] pop[i]).position.within(
                COORD_LIMIT - params.speed_limit,
            ),
    ensures
        steppable(stepped(pop, window, params)),
{
    let next = stepped(pop, window, params);
    assert forall|i: int| 0 <= i < next.len() implies (#[trigger] next[i]).position.within(
        COORD_LIMIT as int,
    ) && next[i].velocity.within(COORD_LIMIT as int) by {
        law_step_moves_by_velocity(pop, window, params, i);
        law_update_caps_speed(pop[i].nudged(window, params), steering(pop, i, params), params);
        assert(pop[i].position.within(COORD_LIMIT - params.speed_limit));
    }
}

/// Without a neighbour among the first `n` boids, their count and every sum
/// over them are zero.
pub proof fn lemma_no_neighbors(
    me: BoidView,
    pop: Seq<BoidView>,
    own: int,
    radius: int,
    what: Quantity,
    n: int,
)
    requires
        forall|j: int| 0 <= j < n ==> !#[trigger] is_neighbor(me, pop, own, j, radius),
    ensures
        neighbor_count(me, pop, own, radius, n) == 0,
        neighbor_sum(me, pop, own, radius, what, n) == Vector::zero(),
    decreases n,
{
    if n > 0 {
        lemma_no_neighbors(me, pop, own, radius, what, n - 1);
        assert(!is_neighbor(me, pop, own, n - 1, radius));
    }
}

/// A boid with no other boid within the separation radius is not steered by
/// separation.
pub proof fn law_separation_without_neighbors(
    me: BoidView,
    pop: Seq<BoidView>,
    own: int,
    params: Params,
)
    requires
        forall|j: int|
            0 <= j < pop.len() && j != own ==> !near(
                me.position,
                (#[trigger] pop[j]).position,
                params.separation_radius as int,
            ),
    ensures
        separation_of(me, pop, own, params) == Vector::zero(),
{
    lemma_no_neighbors(
        me,
        pop,
        own,
        params.separation_radius as int,
        Quantity::Offset,
        pop.len() as int,
    );
    assert(0 * (params.separation_gain as int) == 0);
}

/// A boid with no other boid within the neighbour radius is steered neither
/// by alignment nor by cohesion.
pub proof fn law_alignment_and_cohesion_without_neighbors(
    me: BoidView,
    pop: Seq<BoidView>,
    own: int,
    params: Params,
)
    requires
        forall|j: int|
            0 <= j < pop.len() && j != own ==> !near(
                me.position,
                (#[trigger] pop[j]).position,
                params.neighbor_radius as int,
            ),
    ensures
        alignment_of(me, pop, own, params) == Vector::zero(),
        cohesion_of(me, pop, own, params) == Vector::zero(),
{
    lemma_no_neighbors(
        me,
        pop,
        own,
        params.neighbor_radius as int,
        Quantity::Velocity,
        pop.len() as int,
    );
}

/// What stands at a boid's own index changes neither the count of its
/// neighbours nor any sum over them.
pub proof fn lemma_own_state_is_ignored(
    me: BoidView,
    pop: Seq<BoidView>,
    own: int,
    other: BoidView,
    radius: int,
    what: Quantity,
    n: int,
)
    requires
        0 <= own < pop.len(),
        n <= pop.len(),
    ensures
        neighbor_count(me, pop.update(own, other), own, radius, n) == neighbor_count(
            me,
            pop,
            own,
            radius,
            n,
        ),
        neighbor_sum(me, pop.update(own, other), own, radius, what, n) == neighbor_sum(
            me,
            pop,
            own,
            radius,
            what,
            n,
        ),
    decreases n,
{
    if n > 0 {
        lemma_own_state_is_ignored(me, pop, own, other, radius, what, n - 1);
    }
}

/// Self-exclusion: no rule reads what stands at the boid's own index. With
/// any other state there, each rule gives the same answer.
pub proof fn law_self_exclusion(
    me: BoidView,
    pop: Seq<BoidView>,
    own: int,
    other: BoidView,
    params: Params,
)
    requires
        0 <= own < pop.len(),
    ensures
        separation_of(me, pop.update(own, other), own, params) == separation_of(
            me,
            pop,
            own,
            params,
        ),
        alignment_of(me, pop.update(own, other), own, params) == alignment_of(me, pop, own, params),
        cohesion_of(me, pop.update(own, other), own, params) == cohesion_of(me, pop, own, params),
{
    let n = pop.len() as int;
    lemma_own_state_is_ignored(
        me,
        pop,
        own,
        other,
        params.separation_radius as int,
        Quantity::Offset,
        n,
    );
    lemma_own_state_is_ignored(
        me,
        pop,
        own,
        other,
        params.neighbor_radius as int,
        Quantity::Velocity,
        n,
    );
    lemma_own_state_is_ignored(
        me,
        pop,
        own,
        other,
        params.neighbor_radius as int,
        Quantity::Position,
        n,
    );
}

/// A boid at another index counts by its distance alone: one in the very
/// place of `me` is a neighbour under every positive radius, whatever its
/// velocity.
pub proof fn law_twin_is_a_neighbor(
    me: BoidView,
    pop: Seq<BoidView>,
    own: int,
    j: int,
    radius: int,
)
    requires
        0 <= j < pop.len(),
        j != own,
        pop[j].position == me.position,
        radius > 0,
    ensures
        is_neighbor(me, pop, own, j, radius),
{
    assert(radius * radius > 0) by (nonlinear_arith)
        requires
            radius > 0,
    ;
}

/// Two boids of a population are neighbours of each other or neither is of
/// the other, and what one adds to the other's separation is the opposite
/// of what the other adds to its own.
pub proof fn law_neighbors_are_mutual(pop: Seq<BoidView>, i: int, j: int, radius: int)
    requires
        0 <= i < pop.len(),
        0 <= j < pop.len(),
    ensures
        is_neighbor(pop[i], pop, i, j, radius) == is_neighbor(pop[j], pop, j, i, radius),
        contribution(pop[i], pop[j], Quantity::Offset) == contribution(
            pop[j],
            pop[i],
            Quantity::Offset,
        ).negated(),
{
    let a = pop[i].position;
    let b = pop[j].position;
    assert(a.minus(b).norm_sq() == b.minus(a).norm_sq()) by (nonlinear_arith)
        requires
            a.minus(b).norm_sq() == (a.x - b.x) * (a.x - b.x) + (a.y - b.y) * (a.y - b.y),
            b.minus(a).norm_sq() == (b.x - a.x) * (b.x - a.x) + (b.y - a.y) * (b.y - a.y),
    ;
}

/// A vector times a gain, rounded away from zero, points the same way on
/// each axis; under a positive gain it is zero on an axis only where the
/// vector is. Negating the vector negates the result.
pub proof fn lemma_scaled_away_keeps_direction(v: Vector, gain: int)
    requires
        gain >= 0,
    ensures
        v.scaled_away(gain, GAIN_SCALE as int).dot(v) >= 0,
        v.negated().scaled_away(gain, GAIN_SCALE as int) == v.scaled_away(
            gain,
            GAIN_SCALE as int,
        ).negated(),
        gain > 0 && (v.x != 0 || v.y != 0) ==> v.scaled_away(gain, GAIN_SCALE as int).dot(v) > 0,
        gain > 0 && v.x != 0 ==> v.scaled_away(gain, GAIN_SCALE as int).x != 0,
        gain > 0 && v.y != 0 ==> v.scaled_away(gain, GAIN_SCALE as int).y != 0,
{
    let d = GAIN_SCALE as int;
    lemma_quot_away_range(v.x * gain, d);
    lemma_quot_away_range(v.y * gain, d);
    let qx = quot_away(v.x * gain, d);
    let qy = quot_away(v.y * gain, d);
    assert((-v.x) * gain == -(v.x * gain) && (-v.y) * gain == -(v.y * gain)) by (nonlinear_arith);
    assert(qx * v.x >= 0 && (gain > 0 && v.x != 0 ==> qx * v.x > 0 && qx != 0))
        by (nonlinear_arith)
        requires
            gain >= 0,
            v.x * gain > 0 ==> qx > 0,
            v.x * gain < 0 ==> qx < 0,
            v.x * gain == 0 ==> qx == 0,
    ;
    assert(qy * v.y >= 0 && (gain > 0 && v.y != 0 ==> qy * v.y > 0 && qy != 0))
        by (nonlinear_arith)
        requires
            gain >= 0,
            v.y * gain > 0 ==> qy > 0,
            v.y * gain < 0 ==> qy < 0,
            v.y * gain == 0 ==> qy == 0,
    ;
}

/// Under a positive gain no push is lost to rounding: separation is zero on
/// an axis only where the ways from the close boids cancel on it.
pub proof fn law_separation_is_never_rounded_off(
    me: BoidView,
    pop: Seq<BoidView>,
    own: int,
    params: Params,
)
    requires
        params.separation_gain > 0,
    ensures
        ({
            let sum = neighbor_sum(
                me,
                pop,
                own,
                params.separation_radius as int,
                Quantity::Offset,
                pop.len() as int,
            );
            let push = separation_of(me, pop, own, params);
            &&& (push.x == 0 <==> sum.x == 0)
            &&& (push.y == 0 <==> sum.y == 0)
            &&& push.dot(sum) >= 0
        }),
{
    let sum = neighbor_sum(
        me,
        pop,
        own,
        params.separation_radius as int,
        Quantity::Offset,
        pop.len() as int,
    );
    lemma_scaled_away_keeps_direction(sum, params.separation_gain as int);
    lemma_quot_away_range(sum.x * params.separation_gain, GAIN_SCALE as int);
    lemma_quot_away_range(sum.y * params.separation_gain, GAIN_SCALE as int);
    assert(0 * (params.separation_gain as int) == 0);
}

/// Symmetry of separation: of two boids closer than the separation radius,
/// alone in their population, each is steered by separation along the way
/// from the other to itself, and the two are steered by opposite vectors.
/// Where the two are in different places and the gain is positive, neither
/// push is zero: each points away from the other boid (a positive dot
/// product with the way from it), and the two point against each other (a
/// negative dot product).
pub proof fn law_separation_of_a_pair(a: BoidView, b: BoidView, params: Params)
    requires
        near(a.position, b.position, params.separation_radius as int),
    ensures
        separation_of(a, seq![a, b], 0, params) == a.position.minus(b.position).scaled_away(
            params.separation_gain as int,
            GAIN_SCALE as int,
        ),
        separation_of(b, seq![a, b], 1, params) == separation_of(a, seq![a, b], 0, params).negated(),
        separation_of(a, seq![a, b], 0, params).dot(a.position.minus(b.position)) >= 0,
        separation_of(b, seq![a, b], 1, params).dot(b.position.minus(a.position)) >= 0,
        a.position != b.position && params.separation_gain > 0 ==> {
            &&& separation_of(a, seq![a, b], 0, params).dot(a.position.minus(b.position)) > 0
            &&& separation_of(b, seq![a, b], 1, params).dot(b.position.minus(a.position)) > 0
            &&& separation_of(a, seq![a, b], 0, params).dot(separation_of(b, seq![a, b], 1, params))
                < 0
        },
{
    let pop = seq![a, b];
    let radius = params.separation_radius as int;
    let gain = params.separation_gain as int;
    let way = a.position.minus(b.position);
    law_neighbors_are_mutual(pop, 0, 1, radius);
    reveal_with_fuel(neighbor_sum, 3);
    assert(neighbor_sum(a, pop, 0, radius, Quantity::Offset, 2) == way);
    assert(neighbor_sum(b, pop, 1, radius, Quantity::Offset, 2) == way.negated());
    lemma_scaled_away_keeps_direction(way, gain);
    lemma_scaled_away_keeps_direction(way.negated(), gain);
    assert(b.position.minus(a.position) == way.negated());
    let push = way.scaled_away(gain, GAIN_SCALE as int);
    if a.position != b.position && gain > 0 {
        assert(way.x != 0 || way.y != 0);
        assert(push.x * (-push.x) + push.y * (-push.y) < 0) by (nonlinear_arith)
            requires
                push.x != 0 || push.y != 0,
        ;
    }
}

/// One component of a push away, rounded away from zero, with a pull back,
/// rounded toward zero: together they are less than two steps from the
/// exact `(push - pull) / GAIN_SCALE` times the component, and where the
/// push is the stronger they point the way of the component.
proof fn lemma_push_and_pull(c: int, push: int, pull: int)
    requires
        push >= 0,
        pull >= 0,
    ensures
        ({
            let d = GAIN_SCALE as int;
            let net = quot_away(c * push, d) + quot((0 - c) * pull, d);
            &&& abs(net * d - (push - pull) * c) < 2 * d
            &&& push > pull && c != 0 ==> net * c > 0
            &&& c == 0 ==> net == 0
            &&& quot_away((0 - c) * push, d) + quot((c - 0) * pull, d) == -net
        }),
{
    let d = GAIN_SCALE as int;
    let away = c * push;
    let back = c * pull;
    let qa = quot_away(away, d);
    let qb = quot(back, d);
    assert((0 - c) * pull == -back && (0 - c) * push == -away && (c - 0) * pull == back && (push
        - pull) * c == away - back) by (nonlinear_arith)
        requires
            away == c * push,
            back == c * pull,
    ;
    lemma_quot_odd(back, d);
    lemma_quot_away_range(away, d);
    lemma_quot_range(back, d);
    let net = qa - qb;
    assert(net * d == qa * d - qb * d && (qa - 1) * d == qa * d - d && (qa + 1) * d == qa * d + d
        && (qb - 1) * d == qb * d - d && (qb + 1) * d == qb * d + d) by (nonlinear_arith)
        requires
            net == qa - qb,
    ;
    assert((c > 0 ==> away >= 0 && back >= 0 && (push > pull ==> away > back)) && (c < 0 ==> away
        <= 0 && back <= 0 && (push > pull ==> away < back)) && (c == 0 ==> away == 0 && back
        == 0)) by (nonlinear_arith)
        requires
            away == c * push,
            back == c * pull,
            push >= 0,
            pull >= 0,
    ;
    if push > pull && c != 0 {
        assert(net * c > 0) by (nonlinear_arith)
            requires
                c > 0 ==> net > 0,
                c < 0 ==> net < 0,
                c != 0,
        ;
    }
}

/// Two boids at rest, alone in their population and closer than both radii,
/// are steered by opposite vectors. On each axis the steering is less than
/// two steps from the exact push less pull, `(separation_gain -
/// cohesion_gain) / GAIN_SCALE` times the way from the other boid. Where
/// separation is the stronger and the two are in different places, each is
/// steered away from the other.
pub proof fn law_pair_at_rest_parts(a: BoidView, b: BoidView, params: Params)
    requires
        a.velocity == Vector::zero(),
        b.velocity == Vector::zero(),
        near(a.position, b.position, params.separation_radius as int),
        params.separation_radius <= params.neighbor_radius,
    ensures
        ({
            let way = a.position.minus(b.position);
            let net = params.separation_gain - params.cohesion_gain;
            let first = steering(seq![a, b], 0, params);
            let second = steering(seq![a, b], 1, params);
            &&& second == first.negated()
            &&& abs(first.x * GAIN_SCALE - net * way.x) < 2 * GAIN_SCALE
            &&& abs(first.y * GAIN_SCALE - net * way.y) < 2 * GAIN_SCALE
            &&& net > 0 && a.position != b.position ==> first.dot(way) > 0 && second.dot(way) < 0
        }),
{
    let pop = seq![a, b];
    let way = a.position.minus(b.position);
    let close = params.separation_radius as int;
    let wide = params.neighbor_radius as int;
    assert(close * close <= wide * wide) by (nonlinear_arith)
        requires
            0 <= close <= wide,
    ;
    law_neighbors_are_mutual(pop, 0, 1, close);
    law_neighbors_are_mutual(pop, 0, 1, wide);
    reveal_with_fuel(neighbor_sum, 3);
    reveal_with_fuel(neighbor_count, 3);
    assert(neighbor_sum(a, pop, 0, close, Quantity::Offset, 2) == way);
    assert(neighbor_sum(b, pop, 1, close, Quantity::Offset, 2) == way.negated());
    assert(neighbor_count(a, pop, 0, wide, 2) == 1);
    assert(neighbor_count(b, pop, 1, wide, 2) == 1);
    assert(neighbor_sum(a, pop, 0, wide, Quantity::Position, 2) == b.position);
    assert(neighbor_sum(b, pop, 1, wide, Quantity::Position, 2) == a.position);
    assert(neighbor_sum(a, pop, 0, wide, Quantity::Velocity, 2) == Vector::zero());
    assert(neighbor_sum(b, pop, 1, wide, Quantity::Velocity, 2) == Vector::zero());
    assert(0 * (params.alignment_gain as int) == 0);
    assert(alignment_of(a, pop, 0, params) == Vector::zero());
    assert(alignment_of(b, pop, 1, params) == Vector::zero());
    lemma_push_and_pull(way.x, params.separation_gain as int, params.cohesion_gain as int);
    lemma_push_and_pull(way.y, params.separation_gain as int, params.cohesion_gain as int);
    let first = steering(pop, 0, params);
    let second = steering(pop, 1, params);
    let d = GAIN_SCALE as int;
    assert(first.x == quot_away(way.x * params.separation_gain, d) + quot(
        (0 - way.x) * params.cohesion_gain,
        d,
    ));
    assert(first.y == quot_away(way.y * params.separation_gain, d) + quot(
        (0 - way.y) * params.cohesion_gain,
        d,
    ));
    assert(second.x == quot_away((0 - way.x) * params.separation_gain, d) + quot(
        (way.x - 0) * params.cohesion_gain,
        d,
    ));
    assert(second.y == quot_away((0 - way.y) * params.separation_gain, d) + quot(
        (way.y - 0) * params.cohesion_gain,
        d,
    ));
    if params.separation_gain > params.cohesion_gain && a.position != b.position {
        assert(way.x != 0 || way.y != 0);
        assert(first.x * way.x + first.y * way.y > 0) by (nonlinear_arith)
            requires
                way.x != 0 ==> first.x * way.x > 0,
                way.y != 0 ==> first.y * way.y > 0,
                way.x == 0 ==> first.x == 0,
                way.y == 0 ==> first.y == 0,
                way.x != 0 || way.y != 0,
        ;
        assert((-first.x) * way.x + (-first.y) * way.y < 0) by (nonlinear_arith)
            requires
                first.x * way.x + first.y * way.y > 0,
        ;
    }
}

/// The sign of the border push: on an axis where the boid is within the
/// margin of the low side only, its velocity grows by the turn; within the
/// margin of the high side only, it drops by the turn; within neither, it
/// stays. Where the turn is positive the first is a strict increase and the
/// second a strict decrease.
pub proof fn law_border_push_sign(coordinate: int, low: int, high: int, margin: int, turn: int)
    ensures
        coordinate < low + margin && coordinate <= high - margin ==> border_push(
            coordinate,
            low,
            high,
            margin,
            turn,
        ) == turn,
        coordinate > high - margin && coordinate >= low + margin ==> border_push(
            coordinate,
            low,
            high,
            margin,
            turn,
        ) == -turn,
        low + margin <= coordinate <= high - margin ==> border_push(
            coordinate,
            low,
            high,
            margin,
            turn,
        ) == 0,
{
}

/// The border pushes inward: in a window at least two margins wide and
/// high, a boid within the margin of the left side gains exactly the turn in
/// `x`, one within the margin of the right side loses it, and alike for
/// bottom and top in `y`. The position is not touched.
pub proof fn law_border_pushes_inward(boid: BoidView, window: Rect, params: Params)
    requires
        window.right - window.left >= 2 * params.margin,
        window.top - window.bottom >= 2 * params.margin,
    ensures
        boid.nudged(window, params).position == boid.position,
        boid.position.x < window.left + params.margin ==> boid.nudged(window, params).velocity.x
            == boid.velocity.x + params.border_turn,
        boid.position.x > window.right - params.margin ==> boid.nudged(window, params).velocity.x
            == boid.velocity.x - params.border_turn,
        boid.position.y < window.bottom + params.margin ==> boid.nudged(window, params).velocity.y
            == boid.velocity.y + params.border_turn,
        boid.position.y > window.top - params.margin ==> boid.nudged(window, params).velocity.y
            == boid.velocity.y - params.border_turn,
{
}

/// Determinism: two runs that start from populations equal boid by boid and
/// go through windows equal one by one, under the same parameters, end in
/// the same population.
pub proof fn law_equal_runs_end_equal(
    first: Seq<BoidView>,
    second: Seq<BoidView>,
    first_windows: Seq<Rect>,
    second_windows: Seq<Rect>,
    params: Params,
)
    requires
        first.len() == second.len(),
        forall|i: int| 0 <= i < first.len() ==> first[i] == second[i],
        first_windows.len() == second_windows.len(),
        forall|t: int| 0 <= t < first_windows.len() ==> first_windows[t] == second_windows[t],
    ensures
        run(first, first_windows, params) == run(second, second_windows, params),
{
    assert(first =~= second);
    assert(first_windows =~= second_windows);
}

/// A run of one more window is the run so far, stepped once more; a run
/// keeps the number of boids.
pub proof fn law_run_steps_in_turn(
    pop: Seq<BoidView>,
    windows: Seq<Rect>,
    window: Rect,
    params: Params,
)
    ensures
        run(pop, windows.push(window), params) == stepped(
            run(pop, windows, params),
            window,
            params,
        ),
        run(pop, Seq::empty(), params) == pop,
        run(pop, windows, params).len() == pop.len(),
    decreases windows.len(),
{
    assert(windows.push(window).drop_last() =~= windows);
    if windows.len() > 0 {
        law_run_steps_in_turn(pop, windows.drop_last(), windows.last(), params);
        assert(windows.drop_last().push(windows.last()) =~= windows);
    }
}

/// `pop` with the boids at the indices `i` and `j` exchanged.
pub open spec fn exchanged(pop: Seq<BoidView>, i: int, j: int) -> Seq<BoidView> {
    pop.update(i, pop[j]).update(j, pop[i])
}

/// Where the boid at index `k` stands once those at `i` and `j` are
/// exchanged.
pub open spec fn exchanged_index(k: int, i: int, j: int) -> int {
    if k == i {
        j
    } else if k == j {
        i
    } else {
        k
    }
}

/// What the boid at index `k` adds to the sum of `what` for `me`: its
/// contribution where it is a neighbour, else nothing.
pub open spec fn term(
    me: BoidView,
    pop: Seq<BoidView>,
    own: int,
    k: int,
    radius: int,
    what: Quantity,
) -> Vector {
    if is_neighbor(me, pop, own, k, radius) {
        contribution(me, pop[k], what)
    } else {
        Vector::zero()
    }
}

/// Exchanging two boids exchanges what they add to a sum over the first
/// `n`: before the first of the two and beyond the second, the sum and the
/// count are what they were.
pub proof fn lemma_exchange_keeps_sums(
    me: BoidView,
    pop: Seq<BoidView>,
    own: int,
    i: int,
    j: int,
    radius: int,
    what: Quantity,
    n: int,
)
    requires
        0 <= i < j < pop.len(),
        n <= pop.len(),
    ensures
        ({
            let other = exchanged(pop, i, j);
            let place = exchanged_index(own, i, j);
            let sum = neighbor_sum(me, pop, own, radius, what, n);
            let count = neighbor_count(me, pop, own, radius, n);
            let first = term(me, pop, own, i, radius, what);
            let second = term(me, pop, own, j, radius, what);
            let one = if is_neighbor(me, pop, own, i, radius) {
                1int
            } else {
                0int
            };
            let two = if is_neighbor(me, pop, own, j, radius) {
                1int
            } else {
                0int
            };
            &&& n <= i || n > j ==> neighbor_sum(me, other, place, radius, what, n) == sum
                && neighbor_count(me, other, place, radius, n) == count
            &&& i < n <= j ==> neighbor_sum(me, other, place, radius, what, n) == sum.minus(
                first,
            ).plus(second) && neighbor_count(me, other, place, radius, n) == count - one + two
        }),
    decreases n,
{
    if n > 0 {
        lemma_exchange_keeps_sums(me, pop, own, i, j, radius, what, n - 1);
        let other = exchanged(pop, i, j);
        let place = exchanged_index(own, i, j);
        let k = n - 1;
        assert(is_neighbor(me, other, place, k, radius) == is_neighbor(
            me,
            pop,
            own,
            exchanged_index(k, i, j),
            radius,
        ));
        assert(other[k] == pop[exchanged_index(k, i, j)]);
    }
}

/// The order of the population does not matter. With two boids exchanged,
/// each rule gives every boid, at its new index, the answer it gave before,
/// and a step leaves every boid, at its new index, where it left it before.
pub proof fn law_order_does_not_matter(
    pop: Seq<BoidView>,
    k: int,
    i: int,
    j: int,
    window: Rect,
    params: Params,
)
    requires
        0 <= i < j < pop.len(),
        0 <= k < pop.len(),
    ensures
        ({
            let other = exchanged(pop, i, j);
            let place = exchanged_index(k, i, j);
            &&& other[place] == pop[k]
            &&& separation_of(pop[k], other, place, params) == separation_of(pop[k], pop, k, params)
            &&& alignment_of(pop[k], other, place, params) == alignment_of(pop[k], pop, k, params)
            &&& cohesion_of(pop[k], other, place, params) == cohesion_of(pop[k], pop, k, params)
            &&& stepped(other, window, params)[place] == stepped(pop, window, params)[k]
        }),
{
    let n = pop.len() as int;
    let close = params.separation_radius as int;
    let wide = params.neighbor_radius as int;
    lemma_exchange_keeps_sums(pop[k], pop, k, i, j, close, Quantity::Offset, n);
    lemma_exchange_keeps_sums(pop[k], pop, k, i, j, wide, Quantity::Velocity, n);
    lemma_exchange_keeps_sums(pop[k], pop, k, i, j, wide, Quantity::Position, n);
    assert(exchanged(pop, i, j).len() == pop.len());
}

/// A step reads the population as it was before the step, and nothing else
/// of the flock: the boid at index `i` after the step is a function of that
/// population, the window and the parameters.
pub proof fn law_step_reads_the_old_population(
    pop: Seq<BoidView>,
    window: Rect,
    params: Params,
    i: int,
)
    requires
        0 <= i < pop.len(),
    ensures
        stepped(pop, window, params)[i] == next_boid(pop, i, window, params),
        stepped(pop, window, params)[i] == pop[i].nudged(window, params).updated(
            separation_of(pop[i], pop, i, params).plus(alignment_of(pop[i], pop, i, params)).plus(
                cohesion_of(pop[i], pop, i, params),
            ),
            params,
        ),
{
}

} // verus!
