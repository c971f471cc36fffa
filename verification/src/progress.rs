//! What every state of the search knows about the origin, and why a search
//! that reports an intersection has found one.

use vstd::prelude::*;
use crate::convex::{in_difference, is_difference, touching, vertices, Enclosure};
use crate::geometry::{
    combination, det, lemma_along_edge_direction, lemma_cross_swap, lemma_det_rows,
    lemma_dot_swap, lemma_edge_side, lemma_face_side, lemma_four_vectors, lemma_normal_parts,
    lemma_triple_cross,
};
use crate::intersect::{search, seed};
use crate::simplex::{beyond, face_normal, grow_triangle, reduce_face, step, Search, Simplex, Step};
use crate::support::{farthest_point, lemma_farthest_exists, support_point};
use crate::vector::{lemma_dot_neg, lemma_norm_positive, Vector};

verus! {

/// The state of a search that has not gone astray. Either the hulls are
/// already known to touch; or the kept edge `b`, `c` lies on a line that
/// misses the origin, and the direction is perpendicular to it towards the
/// origin; or the kept face `b`, `c`, `d` has the origin strictly on its
/// inner side.
pub open spec fn on_track(h1: Seq<Vector>, h2: Seq<Vector>, state: Search<Vector>) -> bool {
    touching(h1, h2) || match state.simplex {
        Simplex::Triangle { b, c } => {
            &&& in_difference(h1, h2, b)
            &&& in_difference(h1, h2, c)
            &&& state.dir == c.sub(b).dcross3(b.neg())
            &&& b.cross(c) != Vector::origin()
        },
        Simplex::Tetrahedron { b, c, d } => {
            &&& in_difference(h1, h2, b)
            &&& in_difference(h1, h2, c)
            &&& in_difference(h1, h2, d)
            &&& det(b, c, d) < 0
        },
    }
}

/// A support point of a hull is one of the points that the hull stands for.
proof fn lemma_farthest_is_vertex(hull: Seq<Vector>, dir: Vector) -> (i: int)
    ensures
        0 <= i < vertices(hull).len(),
        farthest_point(hull, dir) == vertices(hull)[i],
{
    if hull.len() > 0 {
        lemma_farthest_exists(hull, dir)
    } else {
        0
    }
}

/// A support point of the Minkowski difference is a point of it.
pub proof fn lemma_support_in_difference(h1: Seq<Vector>, h2: Seq<Vector>, dir: Vector)
    ensures
        in_difference(h1, h2, support_point(h1, h2, dir)),
{
    let i = lemma_farthest_is_vertex(h1, dir);
    let j = lemma_farthest_is_vertex(h2, dir.neg());
    assert(is_difference(h1, h2, support_point(h1, h2, dir), i, j));
}

/// A product with a factor zero is zero.
proof fn lemma_zero_weight(w: int, v: Vector)
    by (nonlinear_arith)
    requires
        w == 0,
    ensures
        w * v.x == 0,
        w * v.y == 0,
        w * v.z == 0,
{
}

/// The dot product with the origin is zero.
proof fn lemma_dot_origin(v: Vector)
    by (nonlinear_arith)
    ensures
        v.dot(Vector::origin()) == 0,
{
}

/// A square is not negative.
proof fn lemma_norm_not_negative(v: Vector)
    by (nonlinear_arith)
    ensures
        v.dot(v) >= 0,
{
}

/// Negating all weights negates a combination.
proof fn lemma_weights_negated(
    a: Vector,
    b: Vector,
    c: Vector,
    d: Vector,
    wa: int,
    wb: int,
    wc: int,
    wd: int,
)
    by (nonlinear_arith)
    ensures
        combination(a, b, c, d, -wa, -wb, -wc, -wd) == combination(a, b, c, d, wa, wb, wc, wd).neg(),
{
}

/// Where the origin lies in the plane of the triangle `a`, `b`, `c`, the
/// corners weighted by `n . (b x c)`, `n . (c x a)` and `n . (a x b)`, for
/// the normal `n` of the triangle, add up to the origin.
proof fn lemma_in_plane(a: Vector, b: Vector, c: Vector)
    requires
        det(a, b, c) == 0,
    ensures
        ({
            let n = face_normal(a, b, c);
            combination(
                a,
                b,
                c,
                a,
                n.dot(b.cross(c)),
                n.dot(c.cross(a)),
                n.dot(a.cross(b)),
                0,
            ) == Vector::origin()
        }),
{
    let n = face_normal(a, b, c);
    lemma_four_vectors(a, b, c, n);
    lemma_det_rows(n, b, c);
    lemma_det_rows(n, c, a);
    lemma_det_rows(n, a, b);
    lemma_det_rows(a, n, b);
    assert(det(b, c, n) == n.dot(b.cross(c)));
    assert(det(a, c, n) == -n.dot(c.cross(a)));
    assert(det(a, n, b) == -n.dot(a.cross(b)));
    lemma_zero_weight(det(a, b, c), n);
    lemma_weights_negated(a, b, c, a, n.dot(b.cross(c)), n.dot(c.cross(a)), n.dot(a.cross(b)), 0);
}

/// Reducing a face keeps the search on track, where the origin is outside
/// one of the two edges at `a` or strictly above the face.
proof fn lemma_reduce_face_on_track(h1: Seq<Vector>, h2: Seq<Vector>, a: Vector, b: Vector, c: Vector)
    requires
        in_difference(h1, h2, a),
        in_difference(h1, h2, b),
        in_difference(h1, h2, c),
        ({
            let ab = b.sub(a);
            let ac = c.sub(a);
            let abc = ab.cross(ac);
            beyond(ab.cross(abc), a) || beyond(abc.cross(ac), a) || beyond(abc, a)
        }),
    ensures
        on_track(h1, h2, reduce_face(a, b, c)),
{
    let ab = b.sub(a);
    let ac = c.sub(a);
    let abc = ab.cross(ac);
    lemma_edge_side(a, b, abc);
    lemma_edge_side(a, c, abc);
    lemma_face_side(a, b, c);
    lemma_dot_origin(abc);
    if beyond(ab.cross(abc), a) {
        if a.cross(b) == Vector::origin() {
            assert(abc.dot(a.cross(b)) == abc.dot(Vector::origin()));
        }
    } else if beyond(abc.cross(ac), a) {
        lemma_cross_swap(a, c);
        if a.cross(c) == Vector::origin() {
            assert(c.cross(a) == Vector::origin());
            assert(abc.dot(c.cross(a)) == abc.dot(Vector::origin()));
        }
    } else {
        assert(det(a, b, c) < 0);
    }
}

/// Adding a support point to the kept edge keeps the search on track.
proof fn lemma_grow_triangle_on_track(
    h1: Seq<Vector>,
    h2: Seq<Vector>,
    a: Vector,
    b: Vector,
    c: Vector,
)
    requires
        in_difference(h1, h2, a),
        in_difference(h1, h2, b),
        in_difference(h1, h2, c),
        b.cross(c) != Vector::origin(),
        a.dot(c.sub(b).dcross3(b.neg())) >= 0,
    ensures
        on_track(h1, h2, grow_triangle(a, b, c)),
{
    let ab = b.sub(a);
    let ac = c.sub(a);
    let n = ab.cross(ac);
    if beyond(ab.cross(n), a) || beyond(n.cross(ac), a) || beyond(n, a) {
        lemma_reduce_face_on_track(h1, h2, a, b, c);
    } else {
        lemma_face_side(a, b, c);
        lemma_det_rows(a, b, c);
        if det(a, b, c) == 0 {
            let m = b.cross(c);
            lemma_edge_side(a, b, n);
            lemma_edge_side(a, c, n);
            lemma_normal_parts(a, b, c, m);
            lemma_along_edge_direction(a, b, c);
            lemma_norm_positive(m);
            lemma_in_plane(a, b, c);
            let e = Enclosure {
                a,
                b,
                c,
                d: a,
                wa: n.dot(m),
                wb: n.dot(c.cross(a)),
                wc: n.dot(a.cross(b)),
                wd: 0,
            };
            assert(e.wa > 0);
            assert(e.holds(h1, h2));
        }
    }
}

/// One step keeps the search on track, and a step that reports the origin
/// enclosed shows that the hulls touch.
pub proof fn lemma_step_on_track(h1: Seq<Vector>, h2: Seq<Vector>, a: Vector, state: Search<Vector>)
    requires
        on_track(h1, h2, state),
        in_difference(h1, h2, a),
        a.dot(state.dir) >= 0,
    ensures
        match step(a, state.simplex) {
            Step::Enclosed => touching(h1, h2),
            Step::Continue(next) => on_track(h1, h2, next),
        },
{
    if !touching(h1, h2) {
        match state.simplex {
            Simplex::Triangle { b, c } => {
                lemma_grow_triangle_on_track(h1, h2, a, b, c);
            },
            Simplex::Tetrahedron { b, c, d } => {
                lemma_face_side(a, b, c);
                lemma_face_side(a, c, d);
                lemma_face_side(a, d, b);
                if beyond(face_normal(a, b, c), a) {
                    lemma_reduce_face_on_track(h1, h2, a, b, c);
                } else if beyond(face_normal(a, c, d), a) {
                    lemma_reduce_face_on_track(h1, h2, a, c, d);
                } else if beyond(face_normal(a, d, b), a) {
                    lemma_reduce_face_on_track(h1, h2, a, d, b);
                } else {
                    lemma_four_vectors(a, b, c, d);
                    let e = Enclosure {
                        a,
                        b,
                        c,
                        d,
                        wa: -det(b, c, d),
                        wb: det(a, c, d),
                        wc: det(a, d, b),
                        wd: det(a, b, c),
                    };
                    assert(e.holds(h1, h2));
                }
            },
        }
    }
}

/// A linear combination of two points written with the products either way.
proof fn lemma_two_points(b: Vector, c: Vector, wb: int, wc: int)
    by (nonlinear_arith)
    ensures
        combination(b, b, c, c, 0, wb, wc, 0) == b.scale(wb).sub(c.scale(-wc)),
{
}

/// The search starts on track.
pub proof fn lemma_seed_on_track(h1: Seq<Vector>, h2: Seq<Vector>, b: Vector, c: Vector)
    requires
        in_difference(h1, h2, b),
        in_difference(h1, h2, c),
        b.dot(c.neg()) >= 0,
    ensures
        on_track(h1, h2, seed(b, c)),
{
    if b.cross(c) == Vector::origin() {
        // The origin lies on the line through `b` and `c`, and between them.
        lemma_triple_cross(c, b, c);
        assert(c.cross(b.cross(c)) == Vector::origin());
        lemma_dot_neg(b, c);
        lemma_dot_swap(b, c);
        lemma_norm_not_negative(c);
        let wb = c.dot(c);
        let wc = -c.dot(b);
        lemma_two_points(b, c, wb, wc);
        if wb + wc > 0 {
            let e = Enclosure { a: b, b, c, d: c, wa: 0, wb, wc, wd: 0 };
            assert(e.holds(h1, h2));
        } else {
            if c != Vector::origin() {
                lemma_norm_positive(c);
            }
            let e = Enclosure { a: c, b: c, c, d: c, wa: 1, wb: 0, wc: 0, wd: 0 };
            assert(e.holds(h1, h2));
        }
    }
}

/// A loop that starts on track and reports an intersection has found one.
pub proof fn lemma_search_touching(
    h1: Seq<Vector>,
    h2: Seq<Vector>,
    state: Search<Vector>,
    fuel: nat,
)
    requires
        on_track(h1, h2, state),
        search(h1, h2, state, fuel) == Some(true),
    ensures
        touching(h1, h2),
    decreases fuel,
{
    let a = support_point(h1, h2, state.dir);
    lemma_support_in_difference(h1, h2, state.dir);
    lemma_step_on_track(h1, h2, a, state);
    match step(a, state.simplex) {
        Step::Enclosed => {},
        Step::Continue(next) => {
            lemma_search_touching(h1, h2, next, (fuel - 1) as nat);
        },
    }
}

} // verus!
