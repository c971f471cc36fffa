//! The intersection driver: seeds the search and alternates support queries
//! with steps of the simplex state machine until a verdict is reached.

use vstd::prelude::*;
use crate::convex::{separates, touching};
use crate::laws::{lemma_apart_is_separated, lemma_verdict_is_right};
use crate::simplex::{
    lemma_cross_within, lemma_face_bounds, simplex, step, Search, Simplex, Step, DIFF_LIMIT,
    DIR_LIMIT, LIMIT,
};
use crate::support::{
    farthest_point, lemma_farthest_within, points_of, support, support_point, within,
};
use crate::vector::{dcross3, Vec3, Vector};

verus! {

/// The number of iterations after which `bgjk` gives up.
pub const MAX_ITERATIONS: usize = 256;

/// The verdict of the search loop started in `state`, allowed `fuel`
/// iterations. Each iteration asks for the support point `a` along the
/// current direction. If `a` does not reach the origin along it, the hulls
/// are apart; if the state machine reports the origin enclosed, they
/// intersect; else the loop goes on from the state that it returns. With no
/// iteration left there is no verdict.
pub open spec fn search(h1: Seq<Vector>, h2: Seq<Vector>, state: Search<Vector>, fuel: nat)
    -> Option<bool>
    decreases fuel,
{
    if fuel == 0 {
        None
    } else {
        let a = support_point(h1, h2, state.dir);
        if a.dot(state.dir) < 0 {
            Some(false)
        } else {
            match step(a, state.simplex) {
                Step::Enclosed => Some(true),
                Step::Continue(next) => search(h1, h2, next, (fuel - 1) as nat),
            }
        }
    }
}

/// The state in which the loop starts, once the first two support points `b`
/// and `c` are known: the edge `b`, `c`, and the direction perpendicular to
/// it towards the origin.
pub open spec fn seed(b: Vector, c: Vector) -> Search<Vector> {
    Search { simplex: Simplex::Triangle { b, c }, dir: c.sub(b).dcross3(b.neg()) }
}

/// The verdict on two hulls within `fuel` iterations. The first support
/// point `c` is taken along `(1, 1, 1)`, the second, `b`, along `-c`. If `b`
/// does not reach the origin along `-c` the hulls are apart; else the loop
/// runs from `seed(b, c)`.
pub open spec fn intersects(h1: Seq<Vector>, h2: Seq<Vector>, fuel: nat) -> Option<bool> {
    let c = support_point(h1, h2, Vector::ones());
    let s = c.neg();
    let b = support_point(h1, h2, s);
    if b.dot(s) < 0 {
        Some(false)
    } else {
        search(h1, h2, seed(b, c), fuel)
    }
}

/// For hulls within `LIMIT` and a direction within `DIR_LIMIT`, a support
/// query can be computed in 128 bits, and its result is within `DIFF_LIMIT`.
pub proof fn lemma_support_within(h1: Seq<Vec3>, h2: Seq<Vec3>, dir: Vector)
    requires
        within(points_of(h1), LIMIT as int),
        within(points_of(h2), LIMIT as int),
        dir.mag() <= DIR_LIMIT,
    ensures
        dir.neg_fits(),
        forall|i: int| 0 <= i < h1.len() ==> (#[trigger] h1[i])@.dot_fits(dir),
        forall|i: int| 0 <= i < h2.len() ==> (#[trigger] h2[i])@.dot_fits(dir.neg()),
        farthest_point(points_of(h1), dir).sub_fits(farthest_point(points_of(h2), dir.neg())),
        support_point(points_of(h1), points_of(h2), dir).mag() <= DIFF_LIMIT,
{
    assert forall|i: int| 0 <= i < h1.len() implies (#[trigger] h1[i])@.dot_fits(dir) by {
        assert(points_of(h1)[i] == h1[i]@);
        lemma_cross_within(h1[i]@, dir, LIMIT as int, DIR_LIMIT as int);
    }
    assert forall|i: int| 0 <= i < h2.len() implies (#[trigger] h2[i])@.dot_fits(dir.neg()) by {
        assert(points_of(h2)[i] == h2[i]@);
        lemma_cross_within(h2[i]@, dir.neg(), LIMIT as int, DIR_LIMIT as int);
    }
    lemma_farthest_within(points_of(h1), dir, LIMIT as int);
    lemma_farthest_within(points_of(h2), dir.neg(), LIMIT as int);
}

/// The search behind `bgjk`, on hulls known to be within `LIMIT` and with
/// the number of iterations allowed given by the caller: `None` says that
/// `limit` iterations brought no verdict.
pub fn bgjk_limited(hull1: &[Vec3], hull2: &[Vec3], limit: usize) -> (r: Option<bool>)
    requires
        within(points_of(hull1@), LIMIT as int),
        within(points_of(hull2@), LIMIT as int),
    ensures
        r == intersects(points_of(hull1@), points_of(hull2@), limit as nat),
        r matches Some(verdict) ==> verdict == touching(points_of(hull1@), points_of(hull2@)),
        r == Some(false) ==> exists|dir: Vector|
            separates(points_of(hull1@), points_of(hull2@), dir),
{
    let ghost h1 = points_of(hull1@);
    let ghost h2 = points_of(hull2@);
    proof {
        if intersects(h1, h2, limit as nat) is Some {
            lemma_verdict_is_right(h1, h2, limit as nat);
        }
        if intersects(h1, h2, limit as nat) == Some(false) {
            lemma_apart_is_separated(h1, h2, limit as nat);
        }
    }
    let sp = Vec3::ones();
    proof {
        lemma_support_within(hull1@, hull2@, sp@);
    }
    let cp = support(hull1, hull2, sp);
    let sp = cp.neg();
    proof {
        lemma_support_within(hull1@, hull2@, sp@);
    }
    let bp = support(hull1, hull2, sp);
    proof {
        lemma_cross_within(bp@, sp@, DIFF_LIMIT as int, DIFF_LIMIT as int);
    }
    if bp.dot(sp) < 0 {
        return Some(false);
    }
    proof {
        lemma_face_bounds(bp@, cp@, cp@);
    }
    let sp = dcross3(cp.sub(bp), bp.neg());
    let mut state = Search { simplex: Simplex::Triangle { b: bp, c: cp }, dir: sp };
    let mut n: usize = 0;
    while n < limit
        invariant
            n <= limit,
            h1 == points_of(hull1@),
            h2 == points_of(hull2@),
            within(h1, LIMIT as int),
            within(h2, LIMIT as int),
            state@.within_limits(),
            intersects(h1, h2, limit as nat) is Some ==> intersects(h1, h2, limit as nat) == Some(
                touching(h1, h2),
            ),
            intersects(h1, h2, limit as nat) == Some(false) ==> exists|dir: Vector|
                separates(h1, h2, dir),
            intersects(h1, h2, limit as nat) == search(h1, h2, state@, (limit - n) as nat),
        decreases limit - n,
    {
        proof {
            lemma_support_within(hull1@, hull2@, state.dir@);
        }
        let ap = support(hull1, hull2, state.dir);
        proof {
            lemma_cross_within(ap@, state.dir@, DIFF_LIMIT as int, DIR_LIMIT as int);
        }
        if ap.dot(state.dir) < 0 {
            return Some(false);
        }
        match simplex(ap, state.simplex) {
            Step::Enclosed => {
                return Some(true);
            },
            Step::Continue(next) => {
                state = next;
            },
        }
        n = n + 1;
    }
    None
}

/// Whether every coordinate of every point of `hull` is within `LIMIT`.
pub fn in_range(hull: &[Vec3]) -> (ok: bool)
    ensures
        ok == within(points_of(hull@), LIMIT as int),
{
    let n: usize = hull.len();
    let mut k: usize = 0;
    while k < n
        invariant
            n == hull@.len(),
            k <= n,
            forall|i: int| 0 <= i < k ==> (#[trigger] points_of(hull@)[i]).mag() <= LIMIT,
        decreases n - k,
    {
        let p = hull[k];
        assert(points_of(hull@)[k as int] == p@);
        if p.0 < -LIMIT || p.0 > LIMIT || p.1 < -LIMIT || p.1 > LIMIT || p.2 < -LIMIT || p.2
            > LIMIT {
            return false;
        }
        k = k + 1;
    }
    true
}

/// Why `bgjk` gave no verdict.
#[derive(Clone, Copy, Debug, PartialEq, Eq)]
pub enum Failure {
    /// A coordinate of a point is beyond `LIMIT`.
    OutOfRange,
    /// The search reached no verdict within `MAX_ITERATIONS` iterations.
    NoVerdict,
}

/// Decides whether the convex hulls of two point sets intersect or touch.
///
/// An empty set stands for the single point at the origin. `Ok(true)` says
/// that the search enclosed the origin in a tetrahedron of points of the
/// Minkowski difference, so that the hulls have a point in common;
/// `Ok(false)` that it found a direction along which the difference stays
/// short of the origin, so that they have none. Hulls with a coordinate
/// beyond `LIMIT` are refused, and a search that reaches neither verdict
/// within `MAX_ITERATIONS` iterations is reported as a failure.
pub fn bgjk(hull1: &[Vec3], hull2: &[Vec3]) -> (r: Result<bool, Failure>)
    ensures
        ({
            let h1 = points_of(hull1@);
            let h2 = points_of(hull2@);
            let fits = within(h1, LIMIT as int) && within(h2, LIMIT as int);
            match r {
                Ok(verdict) => {
                    &&& fits
                    &&& intersects(h1, h2, MAX_ITERATIONS as nat) == Some(verdict)
                    &&& verdict == touching(h1, h2)
                    &&& !verdict ==> exists|dir: Vector| separates(h1, h2, dir)
                },
                Err(Failure::OutOfRange) => !fits,
                Err(Failure::NoVerdict) => fits && intersects(h1, h2, MAX_ITERATIONS as nat)
                    is None,
            }
        }),
{
    if !in_range(hull1) || !in_range(hull2) {
        return Err(Failure::OutOfRange);
    }
    match bgjk_limited(hull1, hull2, MAX_ITERATIONS) {
        Some(verdict) => Ok(verdict),
        None => Err(Failure::NoVerdict),
    }
}

} // verus!
