//! Identities of the scalar triple product, on which the meaning of the
//! verdicts rests.

use vstd::prelude::*;
use crate::simplex::face_normal;
use crate::vector::{lemma_dot_neg, lemma_dot_sub, Vector};

verus! {

/// The scalar triple product `a . (b x c)`: the determinant with rows `a`,
/// `b`, `c`.
pub open spec fn det(a: Vector, b: Vector, c: Vector) -> int {
    a.dot(b.cross(c))
}

/// The sum of four points weighted by integers.
pub open spec fn combination(
    a: Vector,
    b: Vector,
    c: Vector,
    d: Vector,
    wa: int,
    wb: int,
    wc: int,
    wd: int,
) -> Vector {
    Vector {
        x: wa * a.x + wb * b.x + wc * c.x + wd * d.x,
        y: wa * a.y + wb * b.y + wc * c.y + wd * d.y,
        z: wa * a.z + wb * b.z + wc * c.z + wd * d.z,
    }
}

/// The dot product is symmetric.
pub proof fn lemma_dot_swap(a: Vector, b: Vector)
    by (nonlinear_arith)
    ensures
        a.dot(b) == b.dot(a),
{
}

/// Negating the first argument negates the dot product.
pub proof fn lemma_dot_neg_left(a: Vector, d: Vector)
    ensures
        a.neg().dot(d) == -a.dot(d),
{
    lemma_dot_swap(a.neg(), d);
    lemma_dot_neg(d, a);
    lemma_dot_swap(d, a);
}

/// Exchanging the factors of a cross product negates it.
pub proof fn lemma_cross_swap(a: Vector, b: Vector)
    by (nonlinear_arith)
    ensures
        b.cross(a) == a.cross(b).neg(),
{
}

/// Negating the second factor of a cross product negates it.
pub proof fn lemma_cross_neg(a: Vector, b: Vector)
    by (nonlinear_arith)
    ensures
        a.cross(b.neg()) == a.cross(b).neg(),
{
}

/// The cross product distributes over a difference in its first factor.
pub proof fn lemma_cross_sub(b: Vector, a: Vector, m: Vector)
    ensures
        b.sub(a).cross(m) == b.cross(m).sub(a.cross(m)),
{
    broadcast use vstd::arithmetic::mul::group_mul_is_commutative_and_distributive;
}

/// The vector triple product: `x x (y x z) = y (x . z) - z (x . y)`.
pub proof fn lemma_triple_cross(x: Vector, y: Vector, z: Vector)
    ensures
        x.cross(y.cross(z)) == y.scale(x.dot(z)).sub(z.scale(x.dot(y))),
{
    broadcast use vstd::arithmetic::mul::group_mul_is_commutative_and_distributive;
    broadcast use vstd::arithmetic::mul::lemma_mul_is_associative;
}

/// A determinant keeps its value when its rows are rotated and changes its
/// sign when two of them are exchanged.
pub proof fn lemma_det_rows(a: Vector, b: Vector, c: Vector)
    ensures
        det(b, c, a) == det(a, b, c),
        det(c, a, b) == det(a, b, c),
        det(a, c, b) == -det(a, b, c),
        det(b, a, c) == -det(a, b, c),
        det(c, b, a) == -det(a, b, c),
{
    broadcast use vstd::arithmetic::mul::group_mul_is_commutative_and_distributive;
    broadcast use vstd::arithmetic::mul::lemma_mul_is_associative;
}

/// A determinant with two equal rows is zero.
pub proof fn lemma_det_repeated(a: Vector, m: Vector)
    ensures
        det(a, a, m) == 0,
        det(a, m, a) == 0,
        det(m, a, a) == 0,
{
    lemma_det_rows(a, a, m);
    lemma_det_rows(a, m, a);
}

/// The components of a combination, with the products written both ways.
proof fn lemma_scalars(
    a: Vector,
    b: Vector,
    c: Vector,
    d: Vector,
    wa: int,
    wb: int,
    wc: int,
    wd: int,
)
    by (nonlinear_arith)
    ensures
        combination(a, b, c, d, wa, wb, wc, wd).x == (b.x * wb - a.x * (-wa)) + (d.x * wd - c.x
            * (-wc)),
        combination(a, b, c, d, wa, wb, wc, wd).y == (b.y * wb - a.y * (-wa)) + (d.y * wd - c.y
            * (-wc)),
        combination(a, b, c, d, wa, wb, wc, wd).z == (b.z * wb - a.z * (-wa)) + (d.z * wd - c.z
            * (-wc)),
{
}

/// Four vectors in space are linearly dependent, with the determinants of
/// the triples among them as coefficients.
pub proof fn lemma_four_vectors(a: Vector, b: Vector, c: Vector, d: Vector)
    ensures
        combination(a, b, c, d, -det(b, c, d), det(a, c, d), det(a, d, b), det(a, b, c))
            == Vector::origin(),
{
    let m = c.cross(d);
    let n = a.cross(b);
    // (a . m) b - (b . m) a = m x (b x a)
    lemma_triple_cross(m, b, a);
    // (c . n) d - (d . n) c = n x (d x c)
    lemma_triple_cross(n, d, c);
    lemma_cross_swap(a, b);
    lemma_cross_swap(c, d);
    lemma_cross_swap(m, n);
    lemma_det_rows(a, c, d);
    lemma_det_rows(b, c, d);
    lemma_det_rows(a, d, b);
    lemma_det_rows(a, b, c);
    let first = m.cross(b.cross(a));
    let second = n.cross(d.cross(c));
    assert(b.cross(a) == n.neg());
    assert(d.cross(c) == m.neg());
    assert(second == n.cross(m.neg()));
    assert(first == m.cross(n.neg()));
    lemma_cross_neg(m, n);
    lemma_cross_neg(n, m);
    assert(first == second.neg());
    assert(m.dot(a) == det(a, c, d)) by {
        lemma_dot_swap(m, a);
    }
    assert(m.dot(b) == det(b, c, d)) by {
        lemma_dot_swap(m, b);
    }
    assert(n.dot(c) == det(a, b, c)) by {
        lemma_dot_swap(n, c);
        lemma_det_rows(c, a, b);
    }
    assert(n.dot(d) == -det(a, d, b)) by {
        lemma_dot_swap(n, d);
        lemma_det_rows(d, a, b);
    }
    lemma_scalars(a, b, c, d, -det(b, c, d), det(a, c, d), det(a, d, b), det(a, b, c));
}

/// The side of the edge from `a` to `b` on which the origin lies, within a
/// plane of normal `m`, in terms of `a x b`.
pub proof fn lemma_edge_side(a: Vector, b: Vector, m: Vector)
    ensures
        b.sub(a).cross(m).dot(a.neg()) == -m.dot(a.cross(b)),
        m.cross(b.sub(a)).dot(a.neg()) == -m.dot(b.cross(a)),
{
    let e = b.sub(a);
    lemma_cross_sub(b, a, m);
    lemma_dot_neg(e.cross(m), a);
    lemma_dot_sub(b.cross(m), a.cross(m), a);
    lemma_dot_swap(b.cross(m), a);
    lemma_dot_swap(a.cross(m), a);
    lemma_det_rows(m, a, b);
    lemma_det_repeated(a, m);
    assert(e.cross(m).dot(a.neg()) == -det(a, b, m));
    lemma_cross_swap(e, m);
    lemma_dot_neg(m.cross(e), a);
    lemma_dot_neg_left(e.cross(m), a);
    lemma_cross_swap(a, b);
    lemma_dot_neg(m, a.cross(b));
}

/// The side of the face `a`, `b`, `c` on which the origin lies is the sign
/// of the determinant of its corners.
pub proof fn lemma_face_side(a: Vector, b: Vector, c: Vector)
    ensures
        face_normal(a, b, c).dot(a.neg()) == -det(a, b, c),
{
    let m = c.sub(a);
    lemma_edge_side(a, b, m);
    lemma_dot_sub(c, a, a.cross(b));
    lemma_det_rows(c, a, b);
    lemma_det_repeated(a, b);
}

/// The normal of the face `a`, `b`, `c` is `a x b + b x c + c x a`.
pub proof fn lemma_normal_parts(a: Vector, b: Vector, c: Vector, m: Vector)
    ensures
        face_normal(a, b, c).dot(m) == m.dot(a.cross(b)) + m.dot(b.cross(c)) + m.dot(c.cross(a)),
{
    broadcast use vstd::arithmetic::mul::group_mul_is_commutative_and_distributive;
    broadcast use vstd::arithmetic::mul::lemma_mul_is_associative;
}

/// How far a point `a` lies along the direction perpendicular to the edge
/// `b`, `c` towards the origin.
pub proof fn lemma_along_edge_direction(a: Vector, b: Vector, c: Vector)
    ensures
        a.dot(c.sub(b).dcross3(b.neg())) == b.cross(c).dot(c.cross(a)) + b.cross(c).dot(
            a.cross(b),
        ),
{
    let m = b.cross(c);
    let e = c.sub(b);
    assert(e.cross(b.neg()) == m) by {
        broadcast use vstd::arithmetic::mul::group_mul_is_commutative_and_distributive;
    }
    // a . (m x e) = m . (e x a)
    lemma_det_rows(a, m, e);
    assert(e.cross(a).x == c.cross(a).x + a.cross(b).x && e.cross(a).y == c.cross(a).y
        + a.cross(b).y && e.cross(a).z == c.cross(a).z + a.cross(b).z) by {
        broadcast use vstd::arithmetic::mul::group_mul_is_commutative_and_distributive;
    }
    assert(m.dot(e.cross(a)) == m.dot(c.cross(a)) + m.dot(a.cross(b))) by {
        broadcast use vstd::arithmetic::mul::group_mul_is_commutative_and_distributive;
    }
}

} // verus!
