//! Changes to the collection between ticks.

use vstd::prelude::*;
use crate::body::{models, Body, BodyModel};
use crate::physics::{dist, distance};
use crate::vector::{Vec2, Vector};

verus! {

/// The disc of the body reaches the point.
pub open spec fn covers(body: BodyModel, point: Vector) -> bool {
    dist(point, body.pos) <= body.radius
}

/// The test that the bodies away from `point` pass.
pub open spec fn clear_of(point: Vector) -> spec_fn(BodyModel) -> bool {
    |body: BodyModel| !covers(body, point)
}

/// The collection without the bodies whose disc reaches `point`; the others
/// keep their order.
pub fn remove_at(bodies: &Vec<Body>, point: &Vec2) -> (out: Vec<Body>)
    ensures
        models(out@) == models(bodies@).filter(clear_of(point@)),
{
    let n: usize = bodies.len();
    let mut out: Vec<Body> = Vec::new();
    let mut i: usize = 0;
    proof {
        reveal(Seq::filter);
        assert(models(bodies@).take(0) =~= Seq::<BodyModel>::empty());
        assert(models(out@) =~= Seq::<BodyModel>::empty());
    }
    while i < n
        invariant
            i <= n,
            n == bodies@.len(),
            models(out@) == models(bodies@).take(i as int).filter(clear_of(point@)),
        decreases n - i,
    {
        let body = &bodies[i];
        let pos = body.pos();
        let ghost before = models(out@);
        proof {
            reveal(Seq::filter);
            let upto = models(bodies@).take(i + 1);
            assert(upto.drop_last() =~= models(bodies@).take(i as int));
            assert(upto.last() == body@);
        }
        if distance(point, &pos) > body.radius() {
            out.push(body.clone());
            assert(models(out@) =~= before.push(body@));
        }
        i += 1;
    }
    assert(models(bodies@).take(n as int) =~= models(bodies@));
    out
}

} // verus!
