//! The simplex state machine: given the newest support point and the simplex
//! kept so far, find the feature nearest the origin, drop what is no longer
//! needed, and give the next search direction.

use vstd::prelude::*;
use crate::vector::{
    cross, dcross3, lemma_cross_bound, lemma_dot_bound, lemma_product_monotone, Vec3, Vector,
};

verus! {

/// The largest magnitude of a hull point that the search accepts.
pub const LIMIT: i128 = 0x2000_0000;

/// The largest magnitude of a point of the Minkowski difference of two hulls
/// within `LIMIT`.
pub const DIFF_LIMIT: i128 = 0x4000_0000;

/// The largest magnitude of a search direction.
pub const DIR_LIMIT: i128 = 0x4000_0000_0000_0000_0000_0000;

/// The points kept between two iterations. The newest point `a` is not part
/// of it: each iteration supplies one.
#[derive(Copy, Debug, PartialEq, Eq)]
pub enum Simplex<V> {
    /// An edge `b`, `c`: with `a` it forms a triangle.
    Triangle { b: V, c: V },
    /// A face `b`, `c`, `d`: with `a` it forms a tetrahedron.
    Tetrahedron { b: V, c: V, d: V },
}

/// The kept simplex together with the direction of the next support query.
#[derive(Copy, Debug, PartialEq, Eq)]
pub struct Search<V> {
    pub simplex: Simplex<V>,
    pub dir: V,
}

/// The outcome of one step of the state machine.
#[derive(Copy, Debug, PartialEq, Eq)]
pub enum Step<V> {
    /// The tetrahedron encloses the origin.
    Enclosed,
    /// The search goes on from this state.
    Continue(Search<V>),
}

impl<V: Copy> Clone for Simplex<V> {
    fn clone(&self) -> (r: Self)
        ensures
            r == *self,
    {
        *self
    }
}

impl<V: Copy> Clone for Search<V> {
    fn clone(&self) -> (r: Self)
        ensures
            r == *self,
    {
        *self
    }
}

impl<V: Copy> Clone for Step<V> {
    fn clone(&self) -> (r: Self)
        ensures
            r == *self,
    {
        *self
    }
}

impl View for Simplex<Vec3> {
    type V = Simplex<Vector>;

    open spec fn view(&self) -> Simplex<Vector> {
        match *self {
            Simplex::Triangle { b, c } => Simplex::Triangle { b: b@, c: c@ },
            Simplex::Tetrahedron { b, c, d } => Simplex::Tetrahedron { b: b@, c: c@, d: d@ },
        }
    }
}

impl View for Search<Vec3> {
    type V = Search<Vector>;

    open spec fn view(&self) -> Search<Vector> {
        Search { simplex: self.simplex@, dir: self.dir@ }
    }
}

impl View for Step<Vec3> {
    type V = Step<Vector>;

    open spec fn view(&self) -> Step<Vector> {
        match *self {
            Step::Enclosed => Step::Enclosed,
            Step::Continue(next) => Step::Continue(next@),
        }
    }
}

impl Simplex<Vector> {
    /// Every kept point has magnitude at most `bound`.
    pub open spec fn within(self, bound: int) -> bool {
        match self {
            Simplex::Triangle { b, c } => b.mag() <= bound && c.mag() <= bound,
            Simplex::Tetrahedron { b, c, d } => b.mag() <= bound && c.mag() <= bound && d.mag()
                <= bound,
        }
    }
}

impl Search<Vector> {
    /// The kept points are points of a Minkowski difference of hulls within
    /// `LIMIT`, and the direction is within `DIR_LIMIT`.
    pub open spec fn within_limits(self) -> bool {
        self.simplex.within(DIFF_LIMIT as int) && self.dir.mag() <= DIR_LIMIT
    }
}

/// The origin lies strictly on the side of the plane through `a` to which
/// `normal` points.
pub open spec fn beyond(normal: Vector, a: Vector) -> bool {
    normal.dot(a.neg()) > 0
}

/// The normal `(b - a) x (c - a)` of the face `a`, `b`, `c`.
pub open spec fn face_normal(a: Vector, b: Vector, c: Vector) -> Vector {
    b.sub(a).cross(c.sub(a))
}

/// The state after the origin was found on the outer side of the face `a`,
/// `b`, `c`. Where the origin lies outside the edge `a`, `b` (away from `c`)
/// that edge is kept, else where it lies outside the edge `a`, `c` that edge
/// is kept, each with the direction perpendicular to the edge towards the
/// origin; else the whole face is kept, with its normal as the direction.
pub open spec fn reduce_face(a: Vector, b: Vector, c: Vector) -> Search<Vector> {
    let ao = a.neg();
    let ab = b.sub(a);
    let ac = c.sub(a);
    let abc = ab.cross(ac);
    if beyond(ab.cross(abc), a) {
        Search { simplex: Simplex::Triangle { b: a, c: b }, dir: ab.dcross3(ao) }
    } else if beyond(abc.cross(ac), a) {
        Search { simplex: Simplex::Triangle { b: a, c: c }, dir: ac.dcross3(ao) }
    } else {
        Search { simplex: Simplex::Tetrahedron { b: a, c: b, d: c }, dir: abc }
    }
}

/// The state after `a` was added to the edge `b`, `c`. Outside either edge at
/// `a`, or above the triangle, this is `reduce_face`; on or below the
/// triangle, the triangle is kept with the other orientation and the
/// direction is the reversed normal.
pub open spec fn grow_triangle(a: Vector, b: Vector, c: Vector) -> Search<Vector> {
    let ab = b.sub(a);
    let ac = c.sub(a);
    let abc = ab.cross(ac);
    if beyond(ab.cross(abc), a) || beyond(abc.cross(ac), a) || beyond(abc, a) {
        reduce_face(a, b, c)
    } else {
        Search { simplex: Simplex::Tetrahedron { b: a, c: c, d: b }, dir: abc.neg() }
    }
}

/// One step of the state machine on the newest point `a` and the kept
/// simplex. A triangle is grown or reduced. Of a tetrahedron the faces
/// `a b c`, `a c d`, `a d b` are tried in this order, and the first that has
/// the origin strictly outside is reduced; if none has, the origin is
/// enclosed.
pub open spec fn step(a: Vector, held: Simplex<Vector>) -> Step<Vector> {
    match held {
        Simplex::Triangle { b, c } => Step::Continue(grow_triangle(a, b, c)),
        Simplex::Tetrahedron { b, c, d } => {
            if beyond(face_normal(a, b, c), a) {
                Step::Continue(reduce_face(a, b, c))
            } else if beyond(face_normal(a, c, d), a) {
                Step::Continue(reduce_face(a, c, d))
            } else if beyond(face_normal(a, d, b), a) {
                Step::Continue(reduce_face(a, d, b))
            } else {
                Step::Enclosed
            }
        },
    }
}

/// Bounds on the cross and dot products of two vectors from bounds on their
/// magnitudes; where the bounds are small enough, the products can be
/// computed.
pub proof fn lemma_cross_within(a: Vector, b: Vector, ma: int, mb: int)
    requires
        a.mag() <= ma,
        b.mag() <= mb,
    ensures
        a.cross(b).mag() <= 2 * (ma * mb),
        -(3 * (ma * mb)) <= a.dot(b) <= 3 * (ma * mb),
        2 * (ma * mb) <= i128::MAX ==> a.cross_fits(b),
        3 * (ma * mb) <= i128::MAX ==> a.dot_fits(b),
{
    lemma_product_monotone(a.mag(), b.mag(), ma, mb);
    lemma_cross_bound(a, b);
    lemma_dot_bound(a, b);
}

/// Everything computed on a face `a`, `b`, `c` of points of the Minkowski
/// difference can be computed in 128 bits, and the directions that come of
/// it are within `DIR_LIMIT`.
pub proof fn lemma_face_bounds(a: Vector, b: Vector, c: Vector)
    requires
        a.mag() <= DIFF_LIMIT,
        b.mag() <= DIFF_LIMIT,
        c.mag() <= DIFF_LIMIT,
    ensures
        ({
            let ao = a.neg();
            let ab = b.sub(a);
            let ac = c.sub(a);
            let abc = ab.cross(ac);
            &&& a.neg_fits()
            &&& b.sub_fits(a)
            &&& c.sub_fits(a)
            &&& ab.cross_fits(ac)
            &&& abc.neg_fits()
            &&& abc.dot_fits(ao)
            &&& ab.cross_fits(abc)
            &&& abc.cross_fits(ac)
            &&& ab.cross(abc).dot_fits(ao)
            &&& abc.cross(ac).dot_fits(ao)
            &&& ab.cross_fits(ao)
            &&& ac.cross_fits(ao)
            &&& ab.cross(ao).cross_fits(ab)
            &&& ac.cross(ao).cross_fits(ac)
            &&& ab.dcross3(ao).mag() <= DIR_LIMIT
            &&& ac.dcross3(ao).mag() <= DIR_LIMIT
            &&& abc.mag() <= DIR_LIMIT
            &&& abc.neg().mag() <= DIR_LIMIT
        }),
{
    let ao = a.neg();
    let ab = b.sub(a);
    let ac = c.sub(a);
    let abc = ab.cross(ac);
    lemma_cross_within(ab, ac, 0x8000_0000, 0x8000_0000);
    lemma_cross_within(abc, ao, 0x8000_0000_0000_0000, 0x4000_0000);
    lemma_cross_within(ab, abc, 0x8000_0000, 0x8000_0000_0000_0000);
    lemma_cross_within(abc, ac, 0x8000_0000_0000_0000, 0x8000_0000);
    lemma_cross_within(ab.cross(abc), ao, 0x8000_0000_0000_0000_0000_0000, 0x4000_0000);
    lemma_cross_within(abc.cross(ac), ao, 0x8000_0000_0000_0000_0000_0000, 0x4000_0000);
    lemma_cross_within(ab, ao, 0x8000_0000, 0x4000_0000);
    lemma_cross_within(ac, ao, 0x8000_0000, 0x4000_0000);
    lemma_cross_within(ab.cross(ao), ab, 0x4000_0000_0000_0000, 0x8000_0000);
    lemma_cross_within(ac.cross(ao), ac, 0x4000_0000_0000_0000, 0x8000_0000);
}

/// Reduces the face `a`, `b`, `c` of a tetrahedron that has the origin on its
/// outer side, from the edges `ab`, `ac`, the normal `abc` and `ao = -a`
/// already computed.
pub fn check_tetra(a: Vec3, b: Vec3, c: Vec3, ao: Vec3, ab: Vec3, ac: Vec3, abc: Vec3) -> (r:
    Search<Vec3>)
    requires
        a@.mag() <= DIFF_LIMIT,
        b@.mag() <= DIFF_LIMIT,
        c@.mag() <= DIFF_LIMIT,
        ao@ == a@.neg(),
        ab@ == b@.sub(a@),
        ac@ == c@.sub(a@),
        abc@ == ab@.cross(ac@),
    ensures
        r@ == reduce_face(a@, b@, c@),
        r@.within_limits(),
{
    proof {
        lemma_face_bounds(a@, b@, c@);
    }
    let ab_abc = cross(ab, abc);
    if ab_abc.dot(ao) > 0 {
        Search { simplex: Simplex::Triangle { b: a, c: b }, dir: dcross3(ab, ao) }
    } else {
        let abc_ac = cross(abc, ac);
        if abc_ac.dot(ao) > 0 {
            Search { simplex: Simplex::Triangle { b: a, c: c }, dir: dcross3(ac, ao) }
        } else {
            Search { simplex: Simplex::Tetrahedron { b: a, c: b, d: c }, dir: abc }
        }
    }
}

/// One step of the state machine: takes the newest support point `a` and the
/// kept simplex, and returns either that the origin is enclosed or the
/// simplex and direction with which to go on.
pub fn simplex(a: Vec3, held: Simplex<Vec3>) -> (r: Step<Vec3>)
    requires
        a@.mag() <= DIFF_LIMIT,
        held@.within(DIFF_LIMIT as int),
    ensures
        r@ == step(a@, held@),
        r matches Step::Continue(next) ==> next@.within_limits(),
{
    let ao = a.neg();
    match held {
        Simplex::Triangle { b, c } => {
            proof {
                lemma_face_bounds(a@, b@, c@);
            }
            let ab = b.sub(a);
            let ac = c.sub(a);
            let abc = cross(ab, ac);
            let ab_abc = cross(ab, abc);
            if ab_abc.dot(ao) > 0 {
                Step::Continue(
                    Search { simplex: Simplex::Triangle { b: a, c: b }, dir: dcross3(ab, ao) },
                )
            } else {
                let abc_ac = cross(abc, ac);
                if abc_ac.dot(ao) > 0 {
                    Step::Continue(
                        Search { simplex: Simplex::Triangle { b: a, c: c }, dir: dcross3(ac, ao) },
                    )
                } else if abc.dot(ao) > 0 {
                    Step::Continue(
                        Search { simplex: Simplex::Tetrahedron { b: a, c: b, d: c }, dir: abc },
                    )
                } else {
                    Step::Continue(
                        Search {
                            simplex: Simplex::Tetrahedron { b: a, c: c, d: b },
                            dir: abc.neg(),
                        },
                    )
                }
            }
        },
        Simplex::Tetrahedron { b, c, d } => {
            proof {
                lemma_face_bounds(a@, b@, c@);
                lemma_face_bounds(a@, c@, d@);
                lemma_face_bounds(a@, d@, b@);
            }
            let ab = b.sub(a);
            let ac = c.sub(a);
            let abc = cross(ab, ac);
            if abc.dot(ao) > 0 {
                Step::Continue(check_tetra(a, b, c, ao, ab, ac, abc))
            } else {
                let ad = d.sub(a);
                let acd = cross(ac, ad);
                if acd.dot(ao) > 0 {
                    Step::Continue(check_tetra(a, c, d, ao, ac, ad, acd))
                } else {
                    let adb = cross(ad, ab);
                    if adb.dot(ao) > 0 {
                        Step::Continue(check_tetra(a, d, b, ao, ad, ab, adb))
                    } else {
                        Step::Enclosed
                    }
                }
            }
        },
    }
}

} // verus!
