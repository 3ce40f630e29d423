//! What holds of every merge and of every tick.

use vstd::prelude::*;
use crate::arith::{
    cube, int_cbrt, lemma_int_cbrt, lemma_int_sqrt, lemma_quot_bound, min, quot, LIMIT,
    RADIUS_LIMIT, SCALE,
};
use crate::body::{recorded, BodyModel};
use crate::physics::{
    consumed, consumed_before, direction, dist, first_contact, in_contact, lemma_cbrt_positive,
    lemma_first_contact, lemma_momentum_bound, merged, merges, moved, net_accel, pull, pull_sum,
    square_gap, survivors, tick, turn_merges, Integrator, G,
};
use crate::vector::Vector;

verus! {

/// No two different bodies of the collection touch.
pub open spec fn all_apart(bodies: Seq<BodyModel>) -> bool {
    forall|i: int, j: int|
        0 <= i < bodies.len() && 0 <= j < bodies.len() && i != j ==> !in_contact(
            #[trigger] bodies[i],
            #[trigger] bodies[j],
        )
}

/// The collection after `ticks` ticks.
pub open spec fn run(bodies: Seq<BodyModel>, method: Integrator, ticks: nat) -> Seq<BodyModel>
    decreases ticks,
{
    if ticks == 0 {
        bodies
    } else {
        tick(run(bodies, method, (ticks - 1) as nat), method)
    }
}

/// A merged body has the mass of both bodies, as long as the sum can be
/// stored.
pub proof fn lemma_merge_conserves_mass(a: BodyModel, b: BodyModel)
    requires
        a.wf(),
        b.wf(),
        a.mass + b.mass <= LIMIT,
    ensures
        merged(a, b).mass == a.mass + b.mass,
{
}

/// A merged body has the volume of both bodies, to within one raw unit of
/// radius, as long as that radius can be stored: the cube of its radius is at
/// most the sum of their cubes, which the next larger radius would exceed.
pub proof fn lemma_merge_conserves_volume(a: BodyModel, b: BodyModel)
    requires
        a.wf(),
        b.wf(),
        int_cbrt(cube(a.radius) + cube(b.radius)) <= RADIUS_LIMIT,
    ensures
        cube(merged(a, b).radius) <= cube(a.radius) + cube(b.radius),
        cube(a.radius) + cube(b.radius) < cube(merged(a, b).radius + 1),
{
    let volume = cube(a.radius) + cube(b.radius);
    assert(volume >= 0) by (nonlinear_arith)
        requires
            volume == a.radius * a.radius * a.radius + b.radius * b.radius * b.radius,
            a.radius > 0,
            b.radius > 0,
    ;
    lemma_int_cbrt(volume);
}

/// Rounding a quotient toward zero loses less than one divisor.
proof fn lemma_quot_error(p: int, m: int)
    by (nonlinear_arith)
    requires
        m > 0,
    ensures
        -m < m * quot(p, m) - p < m,
{
}

/// A merged body carries the momentum of both bodies, to within the rounding
/// of its velocity to a raw unit, as long as the sum of the masses can be
/// stored.
pub proof fn lemma_merge_conserves_momentum(a: BodyModel, b: BodyModel)
    requires
        a.wf(),
        b.wf(),
        a.mass + b.mass <= LIMIT,
    ensures
        ({
            let m = merged(a, b);
            let px = a.mass * a.velocity.x + b.mass * b.velocity.x;
            let py = a.mass * a.velocity.y + b.mass * b.velocity.y;
            &&& -m.mass < m.mass * m.velocity.x - px < m.mass
            &&& -m.mass < m.mass * m.velocity.y - py < m.mass
        }),
{
    let mass = a.mass + b.mass;
    lemma_quot_error(a.mass * a.velocity.x + b.mass * b.velocity.x, mass);
    lemma_quot_error(a.mass * a.velocity.y + b.mass * b.velocity.y, mass);
}

/// A body alone in the collection gathers no acceleration and is never
/// merged: after a tick it is still alone, has its old velocity, and has
/// moved by that velocity.
pub proof fn lemma_lone_body_moves_uniformly(body: BodyModel, method: Integrator)
    requires
        body.wf(),
    ensures
        tick(seq![body], method).len() == 1,
        tick(seq![body], method)[0].accel == Vector::zero(),
        tick(seq![body], method)[0].velocity == body.velocity,
        tick(seq![body], method)[0].pos == body.pos.plus(body.velocity).clamped(),
        tick(seq![body], method)[0].mass == body.mass,
        tick(seq![body], method)[0].radius == body.radius,
{
    let bodies = seq![body];
    reveal_with_fuel(first_contact, 3);
    reveal_with_fuel(consumed_before, 3);
    reveal_with_fuel(merges, 3);
    reveal_with_fuel(survivors, 3);
    reveal_with_fuel(pull_sum, 3);
    assert(first_contact(bodies, 0, 0) == 1);
    assert(!consumed(bodies, 0));
    assert(merges(bodies, 1) =~= Seq::<BodyModel>::empty());
    assert(pull_sum(bodies, 0, 1) == Vector::zero());
    assert(net_accel(bodies, 0) == Vector::zero());
    assert(survivors(bodies, method, 1) =~= seq![moved(bodies, 0, method)]);
    assert(tick(bodies, method) =~= seq![moved(bodies, 0, method)]);
}

/// The distance between two points does not depend on their order, and the
/// directions in which each lies from the other are opposite.
pub proof fn lemma_attraction_is_antiparallel(a: Vector, b: Vector)
    ensures
        dist(a, b) == dist(b, a),
        direction(a, b) == direction(b, a).opposite(),
{
    assert(square_gap(a, b) == square_gap(b, a)) by (nonlinear_arith)
        requires
            square_gap(a, b) == (b.x - a.x) * (b.x - a.x) + (b.y - a.y) * (b.y - a.y),
            square_gap(b, a) == (a.x - b.x) * (a.x - b.x) + (a.y - b.y) * (a.y - b.y),
    ;
    assert(square_gap(a, b) >= 0) by (nonlinear_arith)
        requires
            square_gap(a, b) == (b.x - a.x) * (b.x - a.x) + (b.y - a.y) * (b.y - a.y),
    ;
    lemma_int_sqrt(square_gap(a, b));
    let r = dist(a, b);
    if r != 0 {
        lemma_quot_of_opposite((a.x - b.x) * SCALE, (b.x - a.x) * SCALE, r);
        lemma_quot_of_opposite((a.y - b.y) * SCALE, (b.y - a.y) * SCALE, r);
    }
}

proof fn lemma_quot_of_opposite(a: int, b: int, d: int)
    by (nonlinear_arith)
    requires
        a == -b,
        d > 0,
    ensures
        quot(a, d) == -quot(b, d),
{
}

/// Where no body touches another, the search for a contact finds none.
proof fn lemma_apart_has_no_contact(bodies: Seq<BodyModel>, i: int, from: int)
    requires
        all_apart(bodies),
        0 <= i < bodies.len(),
        0 <= from <= bodies.len(),
    ensures
        first_contact(bodies, i, from) == bodies.len(),
    decreases bodies.len() - from,
{
    if from < bodies.len() {
        lemma_apart_has_no_contact(bodies, i, from + 1);
    }
}

/// Where no body touches another, no turn blacklists or merges anything.
proof fn lemma_apart_consumes_nothing(bodies: Seq<BodyModel>, t: int, k: int)
    requires
        all_apart(bodies),
        0 <= t <= bodies.len(),
    ensures
        !consumed_before(bodies, t, k),
        merges(bodies, t) == Seq::<BodyModel>::empty(),
    decreases t,
{
    if t > 0 {
        lemma_apart_consumes_nothing(bodies, t - 1, k);
        lemma_apart_consumes_nothing(bodies, t - 1, t - 1);
        lemma_apart_has_no_contact(bodies, t - 1, 0);
    }
}

proof fn lemma_apart_all_survive(bodies: Seq<BodyModel>, method: Integrator, k: int)
    requires
        all_apart(bodies),
        0 <= k <= bodies.len(),
    ensures
        survivors(bodies, method, k).len() == k,
        forall|i: int| 0 <= i < k ==> #[trigger] survivors(bodies, method, k)[i] == moved(bodies, i, method),
    decreases k,
{
    if k > 0 {
        lemma_apart_all_survive(bodies, method, k - 1);
        lemma_apart_consumes_nothing(bodies, bodies.len() as int, k - 1);
    }
}

/// A tick of bodies that do not touch merges nothing: every body is still
/// there, in its place, advanced by one step under the pull of the others.
pub proof fn lemma_tick_without_contact(bodies: Seq<BodyModel>, method: Integrator)
    requires
        all_apart(bodies),
    ensures
        merges(bodies, bodies.len() as int) == Seq::<BodyModel>::empty(),
        tick(bodies, method).len() == bodies.len(),
        forall|i: int| 0 <= i < bodies.len() ==> #[trigger] tick(bodies, method)[i] == moved(bodies, i, method),
{
    lemma_apart_consumes_nothing(bodies, bodies.len() as int, 0);
    lemma_apart_all_survive(bodies, method, bodies.len() as int);
}

/// As long as no two bodies touch at the start of any tick, the number of
/// bodies stays what it was.
pub proof fn lemma_run_without_contact(bodies: Seq<BodyModel>, method: Integrator, ticks: nat)
    requires
        forall|t: nat| t < ticks ==> all_apart(#[trigger] run(bodies, method, t)),
    ensures
        run(bodies, method, ticks).len() == bodies.len(),
    decreases ticks,
{
    if ticks > 0 {
        let before = (ticks - 1) as nat;
        lemma_run_without_contact(bodies, method, before);
        assert(all_apart(run(bodies, method, before)));
        lemma_tick_without_contact(run(bodies, method, before), method);
    }
}

/// Two bodies that touch become one: after a tick the collection holds the
/// merged body and nothing else.
pub proof fn lemma_touching_pair_merges(a: BodyModel, b: BodyModel, method: Integrator)
    requires
        in_contact(a, b),
    ensures
        tick(seq![a, b], method) == seq![merged(a, b)],
{
    let bodies = seq![a, b];
    reveal_with_fuel(first_contact, 4);
    reveal_with_fuel(consumed_before, 4);
    reveal_with_fuel(merges, 4);
    reveal_with_fuel(survivors, 4);
    assert(first_contact(bodies, 0, 0) == 1);
    assert(turn_merges(bodies, 0));
    assert(consumed_before(bodies, 1, 0));
    assert(consumed_before(bodies, 1, 1));
    assert(!turn_merges(bodies, 1));
    assert(consumed(bodies, 0));
    assert(consumed(bodies, 1));
    assert(merges(bodies, 2) =~= seq![merged(a, b)]);
    assert(survivors(bodies, method, 2) =~= Seq::<BodyModel>::empty());
    assert(tick(bodies, method) =~= seq![merged(a, b)]);
}

/// A quotient of a dividend that is not negative is not negative, and one of
/// a dividend that is not positive is not positive.
proof fn lemma_quot_sign(a: int, d: int)
    by (nonlinear_arith)
    requires
        d > 0,
    ensures
        a >= 0 ==> quot(a, d) >= 0,
        a <= 0 ==> quot(a, d) <= 0,
{
}

/// The pull on a body points at the body that pulls: no component of it
/// leads away from the attracting body.
pub proof fn lemma_pull_points_at_attractor(on: BodyModel, by: BodyModel)
    requires
        on.wf(),
        by.wf(),
    ensures
        by.pos.x >= on.pos.x ==> pull(on, by).x >= 0,
        by.pos.x <= on.pos.x ==> pull(on, by).x <= 0,
        by.pos.y >= on.pos.y ==> pull(on, by).y >= 0,
        by.pos.y <= on.pos.y ==> pull(on, by).y <= 0,
{
    let gap = square_gap(by.pos, on.pos);
    assert(gap >= 0) by (nonlinear_arith)
        requires
            gap == (on.pos.x - by.pos.x) * (on.pos.x - by.pos.x) + (on.pos.y - by.pos.y) * (
            on.pos.y - by.pos.y),
    ;
    lemma_int_sqrt(gap);
    let r = dist(by.pos, on.pos);
    if r != 0 {
        let wide = (G * SCALE * by.mass) / (r * r);
        assert(wide >= 0) by (nonlinear_arith)
            requires
                wide == (G * SCALE * by.mass) / (r * r),
                G * SCALE * by.mass >= 0,
                r > 0,
        ;
        let a_mag = min(wide, LIMIT as int);
        let u = direction(by.pos, on.pos);
        let dx = by.pos.x - on.pos.x;
        let dy = by.pos.y - on.pos.y;
        lemma_quot_sign(dx * SCALE, r);
        lemma_quot_sign(dy * SCALE, r);
        assert(u.x >= 0 ==> u.x * a_mag >= 0) by (nonlinear_arith)
            requires
                a_mag >= 0,
        ;
        assert(u.x <= 0 ==> u.x * a_mag <= 0) by (nonlinear_arith)
            requires
                a_mag >= 0,
        ;
        assert(u.y >= 0 ==> u.y * a_mag >= 0) by (nonlinear_arith)
            requires
                a_mag >= 0,
        ;
        assert(u.y <= 0 ==> u.y * a_mag <= 0) by (nonlinear_arith)
            requires
                a_mag >= 0,
        ;
        lemma_quot_sign(u.x * a_mag, SCALE as int);
        lemma_quot_sign(u.y * a_mag, SCALE as int);
    }
}

/// What a merge of two valid bodies makes is a valid body.
pub proof fn lemma_merged_is_valid(a: BodyModel, b: BodyModel)
    requires
        a.wf(),
        b.wf(),
    ensures
        merged(a, b).wf(),
{
    let mass = a.mass + b.mass;
    lemma_momentum_bound(a.mass, a.velocity.x, b.mass, b.velocity.x);
    lemma_momentum_bound(a.mass, a.velocity.y, b.mass, b.velocity.y);
    lemma_quot_bound(a.mass * a.velocity.x + b.mass * b.velocity.x, mass, LIMIT as int);
    lemma_quot_bound(a.mass * a.velocity.y + b.mass * b.velocity.y, mass, LIMIT as int);
    let volume = cube(a.radius) + cube(b.radius);
    assert(volume >= 1) by (nonlinear_arith)
        requires
            volume == a.radius * a.radius * a.radius + b.radius * b.radius * b.radius,
            a.radius > 0,
            b.radius > 0,
    ;
    lemma_int_cbrt(volume);
    lemma_cbrt_positive(volume, int_cbrt(volume));
}

proof fn lemma_merges_are_valid(bodies: Seq<BodyModel>, t: int)
    requires
        forall|i: int| 0 <= i < bodies.len() ==> (#[trigger] bodies[i]).wf(),
        0 <= t <= bodies.len(),
    ensures
        forall|i: int| 0 <= i < merges(bodies, t).len() ==> (#[trigger] merges(bodies, t)[i]).wf(),
    decreases t,
{
    if t > 0 {
        lemma_merges_are_valid(bodies, t - 1);
        let before = merges(bodies, t - 1);
        let now = merges(bodies, t);
        if turn_merges(bodies, t - 1) {
            lemma_first_contact(bodies, t - 1, 0);
            lemma_merged_is_valid(bodies[t - 1], bodies[first_contact(bodies, t - 1, 0)]);
        }
        assert forall|i: int| 0 <= i < now.len() implies (#[trigger] now[i]).wf() by {
            if i < before.len() {
                assert(before[i].wf());
            }
        }
    }
}

proof fn lemma_survivors_are_valid(bodies: Seq<BodyModel>, method: Integrator, k: int)
    requires
        forall|i: int| 0 <= i < bodies.len() ==> (#[trigger] bodies[i]).wf(),
        0 <= k <= bodies.len(),
    ensures
        forall|i: int|
            0 <= i < survivors(bodies, method, k).len() ==> (#[trigger] survivors(
                bodies,
                method,
                k,
            )[i]).wf(),
    decreases k,
{
    if k > 0 {
        lemma_survivors_are_valid(bodies, method, k - 1);
        let before = survivors(bodies, method, k - 1);
        let now = survivors(bodies, method, k);
        assert(bodies[k - 1].wf());
        assert(moved(bodies, k - 1, method).wf());
        assert forall|i: int| 0 <= i < now.len() implies (#[trigger] now[i]).wf() by {
            if i < before.len() {
                assert(before[i].wf());
            }
        }
    }
}

/// A tick of valid bodies gives valid bodies: mass and radius stay positive,
/// and every quantity stays in range.
pub proof fn lemma_tick_keeps_bodies_valid(bodies: Seq<BodyModel>, method: Integrator)
    requires
        forall|i: int| 0 <= i < bodies.len() ==> (#[trigger] bodies[i]).wf(),
    ensures
        forall|i: int|
            0 <= i < tick(bodies, method).len() ==> (#[trigger] tick(bodies, method)[i]).wf(),
{
    lemma_merges_are_valid(bodies, bodies.len() as int);
    lemma_survivors_are_valid(bodies, method, bodies.len() as int);
}

/// A body that is blacklisted stays blacklisted in every later turn.
proof fn lemma_consumed_stays(bodies: Seq<BodyModel>, t: int, later: int, k: int)
    requires
        consumed_before(bodies, t, k),
        t <= later,
    ensures
        consumed_before(bodies, later, k),
    decreases later - t,
{
    if t < later {
        lemma_consumed_stays(bodies, t, later - 1, k);
    }
}

/// The merges made so far are no more than the bodies consumed so far.
proof fn lemma_merges_within_consumed(bodies: Seq<BodyModel>, method: Integrator, k: int)
    requires
        0 <= k <= bodies.len(),
    ensures
        survivors(bodies, method, k).len() + merges(bodies, k).len() <= k,
    decreases k,
{
    if k > 0 {
        lemma_merges_within_consumed(bodies, method, k - 1);
        if turn_merges(bodies, k - 1) {
            assert(consumed_before(bodies, k, k - 1));
            lemma_consumed_stays(bodies, k, bodies.len() as int, k - 1);
        }
    }
}

/// A tick never adds bodies: every merged body takes the place of at least
/// one body that was consumed.
pub proof fn lemma_tick_never_adds_bodies(bodies: Seq<BodyModel>, method: Integrator)
    ensures
        tick(bodies, method).len() <= bodies.len(),
{
    lemma_merges_within_consumed(bodies, method, bodies.len() as int);
}

/// A trail never holds more than its capacity, and what it holds are the
/// most recent positions, oldest first: the tail of the old trail followed by
/// the position just recorded.
pub proof fn lemma_trail_keeps_most_recent(trail: Seq<Vector>, pos: Vector, capacity: nat)
    ensures
        recorded(trail, pos, capacity).len() == min(trail.len() as int + 1, capacity as int),
        forall|i: int|
            0 <= i < recorded(trail, pos, capacity).len() ==> #[trigger] recorded(
                trail,
                pos,
                capacity,
            )[i] == trail.push(pos)[trail.len() + 1 - recorded(trail, pos, capacity).len() + i],
        capacity > 0 ==> recorded(trail, pos, capacity).last() == pos,
{
}

} // verus!
