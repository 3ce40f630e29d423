//! One tick of the simulation: mutual attraction, merging on contact, and
//! integration.

use rayon::iter::{IndexedParallelIterator, IntoParallelRefIterator, ParallelIterator};
use std::collections::HashSet;
use vstd::prelude::*;
use crate::arith::{
    cube, icbrt, int_cbrt, int_sqrt, is_cbrt, is_sqrt, isqrt, lemma_quot_bound, min, quot, LIMIT,
    RADIUS_LIMIT, SCALE,
};
use crate::body::{models, Body, BodyModel};
use crate::vector::{Vec2, Vector};

verus! {

/// The gravitational constant, in raw units.
pub const G: i64 = 6_674_000;

/// The numerical method that advances a body.
#[derive(Clone, Copy, Debug, PartialEq, Eq)]
pub enum Integrator {
    Euler,
    Verlet,
}

/// Sum of the squares of the components of `b - a`.
pub open spec fn square_gap(a: Vector, b: Vector) -> int {
    (b.x - a.x) * (b.x - a.x) + (b.y - a.y) * (b.y - a.y)
}

/// Distance between two points, rounded down to a raw unit.
pub open spec fn dist(a: Vector, b: Vector) -> int {
    int_sqrt(square_gap(a, b))
}

/// The direction in which `a` lies as seen from `b`: each component of the
/// displacement from `b` to `a`, times `SCALE`, over the distance, rounded
/// toward zero. Coincident points have no direction, and give the zero
/// vector.
pub open spec fn direction(a: Vector, b: Vector) -> Vector {
    let r = dist(a, b);
    if r == 0 {
        Vector::zero()
    } else {
        Vector { x: quot((a.x - b.x) * SCALE, r), y: quot((a.y - b.y) * SCALE, r) }
    }
}

/// The body that replaces `a` and `b` when they collide. It sits where the
/// one of larger radius sat (`b` on a tie), carries both masses, has the
/// volume of both as far as a raw unit of radius allows, and moves with their
/// total momentum.
pub open spec fn merged(a: BodyModel, b: BodyModel) -> BodyModel {
    let mass = a.mass + b.mass;
    BodyModel::fresh(
        if a.radius > b.radius {
            a.pos
        } else {
            b.pos
        },
        min(mass, LIMIT as int),
        min(int_cbrt(cube(a.radius) + cube(b.radius)), RADIUS_LIMIT as int),
        Vector {
            x: quot(a.mass * a.velocity.x + b.mass * b.velocity.x, mass),
            y: quot(a.mass * a.velocity.y + b.mass * b.velocity.y, mass),
        },
    )
}

/// Two bodies touch or overlap.
pub open spec fn in_contact(a: BodyModel, b: BodyModel) -> bool {
    dist(b.pos, a.pos) <= a.radius + b.radius
}

/// The acceleration that `by` gives to `on`: of magnitude `G` times the mass
/// of `by` over the squared distance, capped at `LIMIT`, and directed from
/// `on` toward `by`. Bodies whose centres coincide do not pull on each other.
pub open spec fn pull(on: BodyModel, by: BodyModel) -> Vector {
    let r = dist(by.pos, on.pos);
    if r == 0 {
        Vector::zero()
    } else {
        let a_mag = min((G * SCALE * by.mass) / (r * r), LIMIT as int);
        let u = direction(by.pos, on.pos);
        Vector { x: quot(u.x * a_mag, SCALE as int), y: quot(u.y * a_mag, SCALE as int) }
    }
}

/// Sum of the pulls on body `i` by the bodies before index `k`, itself left
/// out.
pub open spec fn pull_sum(bodies: Seq<BodyModel>, i: int, k: int) -> Vector
    decreases k,
{
    if k <= 0 {
        Vector::zero()
    } else if k - 1 == i {
        pull_sum(bodies, i, k - 1)
    } else {
        pull_sum(bodies, i, k - 1).plus(pull(bodies[i], bodies[k - 1]))
    }
}

/// The acceleration of body `i` for this tick: the pulls of all the others,
/// summed exactly and then saturated.
pub open spec fn net_accel(bodies: Seq<BodyModel>, i: int) -> Vector {
    pull_sum(bodies, i, bodies.len() as int).clamped()
}

/// A body advanced by one step of the chosen method.
pub open spec fn advance(body: BodyModel, method: Integrator) -> BodyModel {
    match method {
        Integrator::Euler => body.euler(),
        Integrator::Verlet => body.verlet(),
    }
}

/// Body `i` after this tick, if it is not consumed by a merge.
pub open spec fn moved(bodies: Seq<BodyModel>, i: int, method: Integrator) -> BodyModel {
    advance(bodies[i].with_accel(net_accel(bodies, i)), method)
}

/// The first index from `from` on, other than `i`, of a body in contact with
/// body `i`; the number of bodies if there is none.
pub open spec fn first_contact(bodies: Seq<BodyModel>, i: int, from: int) -> int
    decreases bodies.len() - from,
{
    if from >= bodies.len() {
        bodies.len() as int
    } else if from != i && in_contact(bodies[i], bodies[from]) {
        from
    } else {
        first_contact(bodies, i, from + 1)
    }
}

/// Body `k` is on the blacklist when the turn of body `t` begins. The bodies
/// take their turns in order; a body that is not yet blacklisted and touches
/// another blacklists itself and the first body it touches.
pub open spec fn consumed_before(bodies: Seq<BodyModel>, t: int, k: int) -> bool
    decreases t,
{
    t > 0 && (consumed_before(bodies, t - 1, k) || (!consumed_before(bodies, t - 1, t - 1)
        && first_contact(bodies, t - 1, 0) < bodies.len() && (k == t - 1 || k == first_contact(
        bodies,
        t - 1,
        0,
    ))))
}

/// The turn of body `t` creates a merged body.
pub open spec fn turn_merges(bodies: Seq<BodyModel>, t: int) -> bool {
    !consumed_before(bodies, t, t) && first_contact(bodies, t, 0) < bodies.len()
}

/// Body `k` is consumed by a merge during this tick.
pub open spec fn consumed(bodies: Seq<BodyModel>, k: int) -> bool {
    consumed_before(bodies, bodies.len() as int, k)
}

/// The merged bodies that the turns before `t` create, in the order of their
/// creation.
pub open spec fn merges(bodies: Seq<BodyModel>, t: int) -> Seq<BodyModel>
    decreases t,
{
    if t <= 0 {
        Seq::empty()
    } else if turn_merges(bodies, t - 1) {
        merges(bodies, t - 1).push(
            merged(bodies[t - 1], bodies[first_contact(bodies, t - 1, 0)]),
        )
    } else {
        merges(bodies, t - 1)
    }
}

/// The bodies before index `k` that no merge consumes, each advanced by one
/// step under the pull of all the others.
pub open spec fn survivors(bodies: Seq<BodyModel>, method: Integrator, k: int) -> Seq<BodyModel>
    decreases k,
{
    if k <= 0 {
        Seq::empty()
    } else if consumed(bodies, k - 1) {
        survivors(bodies, method, k - 1)
    } else {
        survivors(bodies, method, k - 1).push(moved(bodies, k - 1, method))
    }
}

/// The collection after one tick: the surviving bodies, advanced, followed
/// by the bodies that merges created, which have not moved yet.
pub open spec fn tick(bodies: Seq<BodyModel>, method: Integrator) -> Seq<BodyModel> {
    survivors(bodies, method, bodies.len() as int) + merges(bodies, bodies.len() as int)
}

/// The bodies before index `k` whose index is not in `listed`.
pub open spec fn unlisted(bodies: Seq<BodyModel>, listed: Set<usize>, k: int) -> Seq<BodyModel>
    decreases k,
{
    if k <= 0 {
        Seq::empty()
    } else if listed.contains((k - 1) as usize) {
        unlisted(bodies, listed, k - 1)
    } else {
        unlisted(bodies, listed, k - 1).push(bodies[k - 1])
    }
}

proof fn lemma_square_bound(d: int, k: int)
    by (nonlinear_arith)
    requires
        -k <= d <= k,
    ensures
        0 <= d * d <= k * k,
{
}

proof fn lemma_component_within_root(dx: int, dy: int, r: int)
    by (nonlinear_arith)
    requires
        is_sqrt(dx * dx + dy * dy, r),
    ensures
        -r <= dx <= r,
        -r <= dy <= r,
{
}

proof fn lemma_root_bound(n: int, r: int, k: int)
    by (nonlinear_arith)
    requires
        is_sqrt(n, r),
        0 <= k,
        n < k * k,
    ensures
        r < k,
{
}

/// The total momentum of two bodies is at most what their total mass could
/// carry at the largest velocity.
pub(crate) proof fn lemma_momentum_bound(m1: int, v1: int, m2: int, v2: int)
    by (nonlinear_arith)
    requires
        0 < m1 <= LIMIT,
        0 < m2 <= LIMIT,
        -LIMIT <= v1 <= LIMIT,
        -LIMIT <= v2 <= LIMIT,
    ensures
        -(LIMIT * LIMIT) <= m1 * v1 <= LIMIT * LIMIT,
        -(LIMIT * LIMIT) <= m2 * v2 <= LIMIT * LIMIT,
        -(LIMIT * (m1 + m2)) <= m1 * v1 + m2 * v2 <= LIMIT * (m1 + m2),
{
}

proof fn lemma_cube_bound(r: int, k: int)
    by (nonlinear_arith)
    requires
        0 < r <= k,
    ensures
        0 < r * r <= k * k,
        0 < r * r * r <= k * k * k,
{
}

/// The cube root of a positive number is positive.
pub(crate) proof fn lemma_cbrt_positive(n: int, r: int)
    by (nonlinear_arith)
    requires
        is_cbrt(n, r),
        n >= 1,
    ensures
        r >= 1,
{
}

proof fn lemma_scaled_bound(u: int, a: int)
    by (nonlinear_arith)
    requires
        -SCALE <= u <= SCALE,
        0 <= a <= LIMIT,
    ensures
        -(LIMIT * SCALE) <= u * a <= LIMIT * SCALE,
{
}

/// The search for a contact ends at or after its start, and at most at the
/// number of bodies.
pub(crate) proof fn lemma_first_contact(bodies: Seq<BodyModel>, i: int, from: int)
    requires
        0 <= from <= bodies.len(),
    ensures
        from <= first_contact(bodies, i, from) <= bodies.len(),
    decreases bodies.len() - from,
{
    if from < bodies.len() {
        lemma_first_contact(bodies, i, from + 1);
    }
}

/// Filtering the advanced bodies by the final blacklist gives the survivors.
proof fn lemma_unlisted_are_survivors(
    bodies: Seq<BodyModel>,
    method: Integrator,
    advanced: Seq<BodyModel>,
    listed: Set<usize>,
    k: int,
)
    requires
        0 <= k <= bodies.len() <= usize::MAX,
        advanced.len() == bodies.len(),
        forall|j: int| 0 <= j < bodies.len() ==> #[trigger] advanced[j] == moved(bodies, j, method),
        forall|j: usize| #[trigger] listed.contains(j) <==> consumed(bodies, j as int),
    ensures
        unlisted(advanced, listed, k) == survivors(bodies, method, k),
    decreases k,
{
    if k > 0 {
        lemma_unlisted_are_survivors(bodies, method, advanced, listed, k - 1);
        let j: usize = (k - 1) as usize;
        assert(listed.contains(j) <==> consumed(bodies, j as int));
    }
}

/// Distance between two points, rounded down to a raw unit.
pub fn distance(a: &Vec2, b: &Vec2) -> (d: i64)
    ensures
        d == dist(a@, b@),
        is_sqrt(square_gap(a@, b@), d as int),
        0 <= d < 3 * LIMIT,
{
    let dx: i128 = b.x() as i128 - a.x() as i128;
    let dy: i128 = b.y() as i128 - a.y() as i128;
    proof {
        lemma_square_bound(dx as int, 2 * LIMIT);
        lemma_square_bound(dy as int, 2 * LIMIT);
    }
    let n: u128 = (dx * dx + dy * dy) as u128;
    let r: u64 = isqrt(n);
    proof {
        lemma_root_bound(n as int, r as int, 3 * LIMIT);
    }
    r as i64
}

/// The bearing of `a` as seen from `b`, given by its cosine and its sine in
/// raw units; the zero vector where the two coincide.
pub fn angle(a: &Vec2, b: &Vec2) -> (u: Vec2)
    ensures
        u@ == direction(a@, b@),
        -SCALE <= u@.x <= SCALE,
        -SCALE <= u@.y <= SCALE,
{
    let r: i64 = distance(a, b);
    if r == 0 {
        return Vec2::zero();
    }
    let dx: i128 = a.x() as i128 - b.x() as i128;
    let dy: i128 = a.y() as i128 - b.y() as i128;
    proof {
        assert(square_gap(a@, b@) == dx * dx + dy * dy) by (nonlinear_arith)
            requires
                dx == a@.x - b@.x,
                dy == a@.y - b@.y,
                square_gap(a@, b@) == (b@.x - a@.x) * (b@.x - a@.x) + (b@.y - a@.y) * (b@.y
                    - a@.y),
        ;
        lemma_component_within_root(dx as int, dy as int, r as int);
        assert(-(SCALE * r) <= dx * SCALE <= SCALE * r) by (nonlinear_arith)
            requires
                -r <= dx <= r,
        ;
        assert(-(SCALE * r) <= dy * SCALE <= SCALE * r) by (nonlinear_arith)
            requires
                -r <= dy <= r,
        ;
        lemma_quot_bound(dx * SCALE, r as int, SCALE as int);
        lemma_quot_bound(dy * SCALE, r as int, SCALE as int);
    }
    Vec2::clamped(dx * SCALE as i128 / r as i128, dy * SCALE as i128 / r as i128)
}

/// The body that two colliding bodies become: at the place of the larger,
/// with the mass, the volume and the momentum of both.
pub fn collide(body1: &Body, body2: &Body) -> (m: Body)
    ensures
        m@ == merged(body1@, body2@),
{
    let m1: i128 = body1.mass() as i128;
    let m2: i128 = body2.mass() as i128;
    let v1 = body1.velocity();
    let v2 = body2.velocity();
    let total_mass: i128 = m1 + m2;
    proof {
        use_type_invariant(v1);
        use_type_invariant(v2);
        lemma_momentum_bound(m1 as int, v1@.x, m2 as int, v2@.x);
        lemma_momentum_bound(m1 as int, v1@.y, m2 as int, v2@.y);
    }
    let px: i128 = m1 * v1.x() as i128 + m2 * v2.x() as i128;
    let py: i128 = m1 * v1.y() as i128 + m2 * v2.y() as i128;
    proof {
        lemma_quot_bound(px as int, total_mass as int, LIMIT as int);
        lemma_quot_bound(py as int, total_mass as int, LIMIT as int);
    }
    let velocity = Vec2::clamped(px / total_mass, py / total_mass);

    let r1: u128 = body1.radius() as u128;
    let r2: u128 = body2.radius() as u128;
    proof {
        lemma_cube_bound(r1 as int, RADIUS_LIMIT as int);
        lemma_cube_bound(r2 as int, RADIUS_LIMIT as int);
    }
    let total_volume: u128 = r1 * r1 * r1 + r2 * r2 * r2;
    let root: u64 = icbrt(total_volume);
    proof {
        lemma_cbrt_positive(total_volume as int, root as int);
    }
    let new_rad: i64 = if root > RADIUS_LIMIT as u64 {
        RADIUS_LIMIT
    } else {
        root as i64
    };
    let mass: i64 = if total_mass > LIMIT as i128 {
        LIMIT
    } else {
        total_mass as i64
    };
    let pos = if body1.radius() > body2.radius() {
        body1.pos()
    } else {
        body2.pos()
    };
    Body::from_valid(pos, mass, new_rad, velocity)
}

/// The acceleration that `by` gives to `on`, pointing from `on` toward `by`.
pub fn attraction(on: &Body, by: &Body) -> (a: Vec2)
    ensures
        a@ == pull(on@, by@),
{
    let on_pos = on.pos();
    let by_pos = by.pos();
    let r: i64 = distance(&by_pos, &on_pos);
    if r == 0 {
        return Vec2::zero();
    }
    let mass: i128 = by.mass() as i128;
    let numerator: i128 = G as i128 * SCALE as i128 * mass;
    let span: i128 = r as i128;
    assert(0 < span * span <= 9_000_000_000_000_000_000_000_000_000_000_000_000)
        by (nonlinear_arith)
        requires
            0 < span < 3_000_000_000_000_000_000,
    ;
    let wide: i128 = numerator / (span * span);
    let a_mag: i128 = if wide > LIMIT as i128 {
        LIMIT as i128
    } else {
        wide
    };
    let u = angle(&by_pos, &on_pos);
    proof {
        lemma_scaled_bound(u@.x, a_mag as int);
        lemma_scaled_bound(u@.y, a_mag as int);
        lemma_quot_bound(u@.x * a_mag, SCALE as int, LIMIT as int);
        lemma_quot_bound(u@.y * a_mag, SCALE as int, LIMIT as int);
    }
    Vec2::clamped(u.x() as i128 * a_mag / SCALE as i128, u.y() as i128 * a_mag / SCALE as i128)
}

/// `None` for a blacklisted index, else a copy of the body.
fn keep_unlisted(index: usize, body: &Body, blacklist: &HashSet<usize>) -> (r: Option<Body>)
    ensures
        match r {
            Some(b) => !blacklist@.contains(index) && b@ == body@,
            None => blacklist@.contains(index),
        },
{
    if blacklist.contains(&index) {
        None
    } else {
        Some(body.clone())
    }
}

/// Copies of the bodies whose index is not blacklisted, in their order.
/// Calls rayon's `par_iter`, `enumerate`, `filter_map` and `collect` on the
/// vector; what is claimed of them is that the items come out in the order of
/// the vector, each with its index, and that collecting the filtered items
/// into a `Vec` keeps exactly those for which the closure gave `Some`, in
/// that order.
#[verifier::external_body]
fn retain_unlisted(bodies: &Vec<Body>, blacklist: &HashSet<usize>) -> (out: Vec<Body>)
    ensures
        models(out@) == unlisted(models(bodies@), blacklist@, bodies@.len() as int),
{
    bodies.par_iter().enumerate().filter_map(
        |(index, body)| keep_unlisted(index, body, blacklist),
    ).collect()
}

/// One tick. The bodies take their turns in order. In its turn a body gathers
/// the pull of every other body; if it touches another and is not yet
/// blacklisted, it and the first body it touches are blacklisted and their
/// merged body is set aside. The result holds the bodies that were never
/// blacklisted, each advanced by `method` under the pull it gathered, followed
/// by the merged bodies, which begin to move in the next tick.
///
/// A body that is blacklisted is not merged again in its own turn, but a later
/// body may still merge with it: of three bodies that all overlap, the first
/// is merged twice.
pub fn update_velocities_and_collide(bodies: &Vec<Body>, method: &Integrator) -> (out: Vec<Body>)
    ensures
        models(out@) == tick(models(bodies@), *method),
{
    let ghost ms = models(bodies@);
    let n: usize = bodies.len();
    let mut advanced: Vec<Body> = Vec::new();
    let mut collision_blacklist: HashSet<usize> = HashSet::new();
    let mut collision_bodies: Vec<Body> = Vec::new();
    assert(models(collision_bodies@) =~= merges(ms, 0));

    let mut i: usize = 0;
    while i < n
        invariant
            i <= n,
            n == bodies@.len(),
            ms == models(bodies@),
            advanced@.len() == i,
            forall|k: int| 0 <= k < i ==> (#[trigger] advanced@[k])@ == moved(ms, k, *method),
            forall|k: usize| #[trigger]
                collision_blacklist@.contains(k) <==> consumed_before(ms, i as int, k as int),
            models(collision_bodies@) == merges(ms, i as int),
        decreases n - i,
    {
        let ghost listed_before = collision_blacklist@;
        let ghost merges_before = models(collision_bodies@);
        let ghost hit = first_contact(ms, i as int, 0);
        proof {
            lemma_first_contact(ms, i as int, 0);
        }
        let mut acc_x: i128 = 0;
        let mut acc_y: i128 = 0;
        let mut j: usize = 0;
        while j < n
            invariant
                i < n,
                j <= n,
                n == bodies@.len(),
                ms == models(bodies@),
                hit == first_contact(ms, i as int, 0),
                0 <= hit <= n,
                acc_x == pull_sum(ms, i as int, j as int).x,
                acc_y == pull_sum(ms, i as int, j as int).y,
                -(j * LIMIT) <= acc_x <= j * LIMIT,
                -(j * LIMIT) <= acc_y <= j * LIMIT,
                listed_before.contains(i) ==> collision_blacklist@ == listed_before
                    && models(collision_bodies@) == merges_before,
                !listed_before.contains(i) && hit < j ==> collision_blacklist@
                    == listed_before.insert(i).insert(hit as usize) && models(collision_bodies@)
                    == merges_before.push(merged(ms[i as int], ms[hit])),
                !listed_before.contains(i) && hit >= j ==> collision_blacklist@ == listed_before
                    && models(collision_bodies@) == merges_before && hit == first_contact(
                    ms,
                    i as int,
                    j as int,
                ),
            decreases n - j,
        {
            proof {
                lemma_first_contact(ms, i as int, j + 1);
            }
            if j != i {
                let other_body = &bodies[j];
                let current_body = &bodies[i];
                assert(other_body@ == ms[j as int]);
                assert(current_body@ == ms[i as int]);
                let other_pos = other_body.pos();
                let current_pos = current_body.pos();
                let r: i64 = distance(&other_pos, &current_pos);
                if r <= other_body.radius() + current_body.radius() && !collision_blacklist.contains(
                    &i,
                ) {
                    assert(in_contact(ms[i as int], ms[j as int]));
                    assert(hit == j);
                    collision_blacklist.insert(i);
                    collision_blacklist.insert(j);
                    let merged_body = collide(current_body, other_body);
                    collision_bodies.push(merged_body);
                    assert(models(collision_bodies@) =~= merges_before.push(
                        merged(ms[i as int], ms[j as int]),
                    ));
                }
                let a = attraction(current_body, other_body);
                acc_x = acc_x + a.x() as i128;
                acc_y = acc_y + a.y() as i128;
            }
            j += 1;
        }
        let mut body = bodies[i].clone();
        assert(body@ == ms[i as int]);
        body.set_current_accel(Vec2::clamped(acc_x, acc_y));
        assert(body@ == ms[i as int].with_accel(net_accel(ms, i as int)));
        match method {
            Integrator::Euler => body.update_euler(),
            Integrator::Verlet => body.update_verlet(),
        }
        advanced.push(body);
        proof {
            assert forall|k: usize| #[trigger]
                collision_blacklist@.contains(k) <==> consumed_before(
                    ms,
                    i + 1,
                    k as int,
                ) by {
                assert(listed_before.contains(k) <==> consumed_before(ms, i as int, k as int));
                assert(listed_before.contains(i) <==> consumed_before(ms, i as int, i as int));
            }
            assert(models(collision_bodies@) == merges(ms, i + 1));
        }
        i += 1;
    }
    let mut out = retain_unlisted(&advanced, &collision_blacklist);
    proof {
        lemma_unlisted_are_survivors(ms, *method, models(advanced@), collision_blacklist@, n as int);
    }
    let ghost kept = out@;
    let ghost made = collision_bodies@;
    out.append(&mut collision_bodies);
    assert(models(out@) =~= models(kept) + models(made));
    out
}

} // verus!
