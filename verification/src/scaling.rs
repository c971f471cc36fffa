//! The search on hulls stretched by a positive integer takes the same course
//! as on the hulls themselves.

use vstd::prelude::*;
use crate::intersect::{intersects, search, seed};
use crate::simplex::{
    beyond, face_normal, grow_triangle, reduce_face, step, Search, Simplex, Step,
};
use crate::support::{
    farthest_point, is_farthest, lemma_farthest_exists, lemma_farthest_unique, support_point,
};
use crate::vector::Vector;

verus! {

/// The hull whose points are those of `hull`, each multiplied by `k`.
pub open spec fn scaled(hull: Seq<Vector>, k: int) -> Seq<Vector> {
    Seq::new(hull.len(), |i: int| hull[i].scale(k))
}

/// The simplex with every point multiplied by `k`.
pub open spec fn scaled_simplex(held: Simplex<Vector>, k: int) -> Simplex<Vector> {
    match held {
        Simplex::Triangle { b, c } => Simplex::Triangle { b: b.scale(k), c: c.scale(k) },
        Simplex::Tetrahedron { b, c, d } => Simplex::Tetrahedron {
            b: b.scale(k),
            c: c.scale(k),
            d: d.scale(k),
        },
    }
}

/// The state with every point multiplied by `k` and the direction by `m`.
pub open spec fn scaled_state(state: Search<Vector>, k: int, m: int) -> Search<Vector> {
    Search { simplex: scaled_simplex(state.simplex, k), dir: state.dir.scale(m) }
}

/// A positive factor keeps the sign of a product.
proof fn lemma_sign(k: int, v: int)
    by (nonlinear_arith)
    requires
        k > 0,
    ensures
        (k * v > 0) == (v > 0),
        (k * v < 0) == (v < 0),
{
}

/// A positive factor keeps the order of two products.
proof fn lemma_order(k: int, v: int, w: int)
    by (nonlinear_arith)
    requires
        k > 0,
    ensures
        (k * v <= k * w) == (v <= w),
        (k * v < k * w) == (v < w),
{
}

/// A product of positive integers is positive.
proof fn lemma_positive(k: int, m: int)
    by (nonlinear_arith)
    requires
        k > 0,
        m > 0,
    ensures
        k * m > 0,
{
}

/// Products of multiples, as multiples of products.
proof fn lemma_multiples(p: int, q: int, r: int, s: int, k: int, m: int)
    ensures
        (p * k) * (q * m) == (k * m) * (p * q),
        (p * k) * (q * m) - (r * k) * (s * m) == (p * q - r * s) * (k * m),
        p * k - q * k == (p - q) * k,
        -(p * k) == (-p) * k,
        (p * k) * m == p * (k * m),
        p * 1 == p,
        k * (p + q + r) == k * p + k * q + k * r,
{
    assert((p * k) * (q * m) == (k * m) * (p * q)) by (nonlinear_arith);
    assert((r * k) * (s * m) == (k * m) * (r * s)) by (nonlinear_arith);
    assert((p * q - r * s) * (k * m) == (k * m) * (p * q) - (k * m) * (r * s))
        by (nonlinear_arith);
    assert(p * k - q * k == (p - q) * k) by (nonlinear_arith);
    assert(-(p * k) == (-p) * k) by (nonlinear_arith);
    assert((p * k) * m == p * (k * m)) by (nonlinear_arith);
    assert(k * (p + q + r) == k * p + k * q + k * r) by (nonlinear_arith);
}

/// How the vector operations treat multiples.
proof fn lemma_scale_algebra(a: Vector, b: Vector, k: int, m: int)
    ensures
        a.scale(k).dot(b.scale(m)) == (k * m) * a.dot(b),
        a.scale(k).cross(b.scale(m)) == a.cross(b).scale(k * m),
        a.scale(k).sub(b.scale(k)) == a.sub(b).scale(k),
        a.scale(k).neg() == a.neg().scale(k),
        a.scale(k).scale(m) == a.scale(k * m),
        a.scale(1) == a,
{
    lemma_multiples(a.x, b.x, a.x, b.x, k, m);
    lemma_multiples(a.y, b.y, a.y, b.y, k, m);
    lemma_multiples(a.z, b.z, a.z, b.z, k, m);
    lemma_multiples(a.x * b.x, a.y * b.y, a.z * b.z, 0, k * m, 1);
    lemma_multiples(a.y, b.z, a.z, b.y, k, m);
    lemma_multiples(a.z, b.x, a.x, b.z, k, m);
    lemma_multiples(a.x, b.y, a.y, b.x, k, m);
}

/// The side of a plane on which the origin lies does not depend on the unit
/// of length.
proof fn lemma_beyond_scaled(n: Vector, a: Vector, k: int, m: int)
    requires
        k > 0,
        m > 0,
    ensures
        beyond(n.scale(m), a.scale(k)) == beyond(n, a),
{
    lemma_scale_algebra(a, a, k, 1);
    lemma_scale_algebra(n, a.neg(), m, k);
    lemma_positive(m, k);
    lemma_sign(m * k, n.dot(a.neg()));
}

/// The support point of a stretched hull along a stretched direction is the
/// stretched support point.
proof fn lemma_farthest_scaled(hull: Seq<Vector>, dir: Vector, k: int, m: int)
    requires
        k > 0,
        m > 0,
    ensures
        farthest_point(scaled(hull, k), dir.scale(m)) == farthest_point(hull, dir).scale(k),
{
    let more = scaled(hull, k);
    if hull.len() == 0 {
        lemma_multiples(0, 0, 0, 0, k, 1);
    } else {
        let i = lemma_farthest_exists(hull, dir);
        lemma_positive(k, m);
        assert forall|j: int| 0 <= j < more.len() implies (#[trigger] more[j]).dot(dir.scale(m))
            == (k * m) * hull[j].dot(dir) by {
            lemma_scale_algebra(hull[j], dir, k, m);
        }
        assert forall|j: int| 0 <= j < more.len() implies (#[trigger] more[j]).dot(dir.scale(m))
            <= more[i].dot(dir.scale(m)) by {
            assert(hull[j].dot(dir) <= hull[i].dot(dir));
            lemma_order(k * m, hull[j].dot(dir), hull[i].dot(dir));
        }
        assert forall|j: int| 0 <= j < i implies (#[trigger] more[j]).dot(dir.scale(m)) < more[i].dot(
            dir.scale(m),
        ) by {
            assert(hull[j].dot(dir) < hull[i].dot(dir));
            lemma_order(k * m, hull[j].dot(dir), hull[i].dot(dir));
        }
        assert(is_farthest(more, dir.scale(m), i));
        let chosen = lemma_farthest_exists(more, dir.scale(m));
        lemma_farthest_unique(more, dir.scale(m), i, chosen);
    }
}

/// The support point of the difference of stretched hulls along a stretched
/// direction is the stretched support point.
proof fn lemma_support_scaled(h1: Seq<Vector>, h2: Seq<Vector>, dir: Vector, k: int, m: int)
    requires
        k > 0,
        m > 0,
    ensures
        support_point(scaled(h1, k), scaled(h2, k), dir.scale(m)) == support_point(
            h1,
            h2,
            dir,
        ).scale(k),
{
    lemma_farthest_scaled(h1, dir, k, m);
    lemma_farthest_scaled(h2, dir.neg(), k, m);
    lemma_scale_algebra(dir, dir, m, 1);
    lemma_scale_algebra(farthest_point(h1, dir), farthest_point(h2, dir.neg()), k, 1);
}

/// Reducing a stretched face gives the stretched result, with the direction
/// stretched by a positive factor.
proof fn lemma_reduce_face_scaled(a: Vector, b: Vector, c: Vector, k: int) -> (m: int)
    requires
        k > 0,
    ensures
        m > 0,
        reduce_face(a.scale(k), b.scale(k), c.scale(k)) == scaled_state(reduce_face(a, b, c), k, m),
{
    let ao = a.neg();
    let ab = b.sub(a);
    let ac = c.sub(a);
    let abc = ab.cross(ac);
    let k2 = k * k;
    let k3 = k2 * k;
    lemma_positive(k, k);
    lemma_positive(k2, k);
    lemma_scale_algebra(a, a, k, 1);
    lemma_scale_algebra(b, a, k, 1);
    lemma_scale_algebra(c, a, k, 1);
    lemma_scale_algebra(ab, ac, k, k);
    lemma_scale_algebra(ab, abc, k, k2);
    lemma_scale_algebra(abc, ac, k2, k);
    assert(k * k2 == k3 && k2 * k == k3) by (nonlinear_arith)
        requires
            k2 == k * k,
            k3 == k2 * k,
    ;
    lemma_beyond_scaled(ab.cross(abc), a, k, k3);
    lemma_beyond_scaled(abc.cross(ac), a, k, k3);
    lemma_scale_algebra(ab, ao, k, k);
    lemma_scale_algebra(ac, ao, k, k);
    lemma_scale_algebra(ab.cross(ao), ab, k2, k);
    lemma_scale_algebra(ac.cross(ao), ac, k2, k);
    if beyond(ab.cross(abc), a) || beyond(abc.cross(ac), a) {
        k3
    } else {
        k2
    }
}

/// Growing a stretched triangle gives the stretched result, with the
/// direction stretched by a positive factor.
proof fn lemma_grow_triangle_scaled(a: Vector, b: Vector, c: Vector, k: int) -> (m: int)
    requires
        k > 0,
    ensures
        m > 0,
        grow_triangle(a.scale(k), b.scale(k), c.scale(k)) == scaled_state(
            grow_triangle(a, b, c),
            k,
            m,
        ),
{
    let ab = b.sub(a);
    let ac = c.sub(a);
    let abc = ab.cross(ac);
    let k2 = k * k;
    let k3 = k2 * k;
    lemma_positive(k, k);
    lemma_positive(k2, k);
    lemma_scale_algebra(b, a, k, 1);
    lemma_scale_algebra(c, a, k, 1);
    lemma_scale_algebra(ab, ac, k, k);
    lemma_scale_algebra(ab, abc, k, k2);
    lemma_scale_algebra(abc, ac, k2, k);
    assert(k * k2 == k3 && k2 * k == k3) by (nonlinear_arith)
        requires
            k2 == k * k,
            k3 == k2 * k,
    ;
    lemma_beyond_scaled(ab.cross(abc), a, k, k3);
    lemma_beyond_scaled(abc.cross(ac), a, k, k3);
    lemma_beyond_scaled(abc, a, k, k2);
    if beyond(ab.cross(abc), a) || beyond(abc.cross(ac), a) || beyond(abc, a) {
        lemma_reduce_face_scaled(a, b, c, k)
    } else {
        lemma_scale_algebra(abc, abc, k2, 1);
        k2
    }
}

/// The stretched outcome of a step.
pub open spec fn scaled_step(outcome: Step<Vector>, k: int, m: int) -> Step<Vector> {
    match outcome {
        Step::Enclosed => Step::Enclosed,
        Step::Continue(next) => Step::Continue(scaled_state(next, k, m)),
    }
}

/// The face that a step on a stretched tetrahedron finds the origin outside
/// of is the one that it finds on the tetrahedron.
proof fn lemma_face_scaled(a: Vector, b: Vector, c: Vector, k: int)
    requires
        k > 0,
    ensures
        beyond(face_normal(a.scale(k), b.scale(k), c.scale(k)), a.scale(k))
            == beyond(face_normal(a, b, c), a),
{
    let ab = b.sub(a);
    let ac = c.sub(a);
    lemma_positive(k, k);
    lemma_scale_algebra(b, a, k, 1);
    lemma_scale_algebra(c, a, k, 1);
    lemma_scale_algebra(ab, ac, k, k);
    lemma_beyond_scaled(ab.cross(ac), a, k, k * k);
}

/// A step on a stretched simplex gives the stretched outcome, with the
/// direction stretched by a positive factor.
proof fn lemma_step_scaled(a: Vector, held: Simplex<Vector>, k: int) -> (m: int)
    requires
        k > 0,
    ensures
        m > 0,
        step(a.scale(k), scaled_simplex(held, k)) == scaled_step(step(a, held), k, m),
{
    match held {
        Simplex::Triangle { b, c } => lemma_grow_triangle_scaled(a, b, c, k),
        Simplex::Tetrahedron { b, c, d } => {
            lemma_face_scaled(a, b, c, k);
            lemma_face_scaled(a, c, d, k);
            lemma_face_scaled(a, d, b, k);
            if beyond(face_normal(a, b, c), a) {
                lemma_reduce_face_scaled(a, b, c, k)
            } else if beyond(face_normal(a, c, d), a) {
                lemma_reduce_face_scaled(a, c, d, k)
            } else if beyond(face_normal(a, d, b), a) {
                lemma_reduce_face_scaled(a, d, b, k)
            } else {
                1
            }
        },
    }
}

/// The loop on stretched hulls, from a stretched state, takes the course of
/// the loop on the hulls.
proof fn lemma_search_scaled(
    h1: Seq<Vector>,
    h2: Seq<Vector>,
    state: Search<Vector>,
    k: int,
    m: int,
    fuel: nat,
)
    requires
        k > 0,
        m > 0,
    ensures
        search(scaled(h1, k), scaled(h2, k), scaled_state(state, k, m), fuel) == search(
            h1,
            h2,
            state,
            fuel,
        ),
    decreases fuel,
{
    if fuel > 0 {
        let a = support_point(h1, h2, state.dir);
        lemma_support_scaled(h1, h2, state.dir, k, m);
        lemma_scale_algebra(a, state.dir, k, m);
        lemma_positive(k, m);
        lemma_sign(k * m, a.dot(state.dir));
        if a.dot(state.dir) >= 0 {
            let next_factor = lemma_step_scaled(a, state.simplex, k);
            match step(a, state.simplex) {
                Step::Enclosed => {},
                Step::Continue(next) => {
                    lemma_search_scaled(h1, h2, next, k, next_factor, (fuel - 1) as nat);
                },
            }
        }
    }
}

/// The search does not depend on the unit of length: on hulls with every
/// coordinate multiplied by the same positive integer it gives the same
/// verdict after the same number of iterations.
pub proof fn lemma_verdict_by_scale(h1: Seq<Vector>, h2: Seq<Vector>, k: int, fuel: nat)
    requires
        k > 0,
    ensures
        intersects(scaled(h1, k), scaled(h2, k), fuel) == intersects(h1, h2, fuel),
{
    let c = support_point(h1, h2, Vector::ones());
    let s = c.neg();
    let b = support_point(h1, h2, s);
    lemma_scale_algebra(Vector::ones(), c, 1, k);
    lemma_support_scaled(h1, h2, Vector::ones(), k, 1);
    lemma_support_scaled(h1, h2, s, k, k);
    lemma_scale_algebra(b, s, k, k);
    lemma_positive(k, k);
    lemma_sign(k * k, b.dot(s));
    let k2 = k * k;
    let k3 = k2 * k;
    lemma_positive(k2, k);
    lemma_scale_algebra(c, b, k, 1);
    lemma_scale_algebra(b, b, k, 1);
    lemma_scale_algebra(c.sub(b), b.neg(), k, k);
    lemma_scale_algebra(c.sub(b).cross(b.neg()), c.sub(b), k2, k);
    assert(seed(b.scale(k), c.scale(k)) == scaled_state(seed(b, c), k, k3));
    lemma_search_scaled(h1, h2, seed(b, c), k, k3, fuel);
}

} // verus!
