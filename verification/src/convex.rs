//! What it means for two hulls to be apart or to touch, stated over their
//! points.

use vstd::prelude::*;
use crate::geometry::combination;
use crate::vector::{lemma_dot_sub, Vector};

verus! {

/// The points that a hull stands for: its own, or the origin alone where it
/// has none.
pub open spec fn vertices(hull: Seq<Vector>) -> Seq<Vector> {
    if hull.len() == 0 {
        seq![Vector::origin()]
    } else {
        hull
    }
}

/// Every point of the Minkowski difference of the two hulls lies strictly
/// behind the plane through the origin with normal `dir`: the plane
/// separates the hulls.
pub open spec fn separates(h1: Seq<Vector>, h2: Seq<Vector>, dir: Vector) -> bool {
    forall|i: int, j: int|
        0 <= i < vertices(h1).len() && 0 <= j < vertices(h2).len() ==> (#[trigger] vertices(
            h1,
        )[i]).sub(#[trigger] vertices(h2)[j]).dot(dir) < 0
}

/// `p` is the difference of the `i`-th point of the first hull and the
/// `j`-th point of the second.
pub open spec fn is_difference(h1: Seq<Vector>, h2: Seq<Vector>, p: Vector, i: int, j: int) -> bool {
    &&& 0 <= i < vertices(h1).len()
    &&& 0 <= j < vertices(h2).len()
    &&& p == vertices(h1)[i].sub(vertices(h2)[j])
}

/// `p` is a point of the Minkowski difference of the two hulls.
pub open spec fn in_difference(h1: Seq<Vector>, h2: Seq<Vector>, p: Vector) -> bool {
    exists|i: int, j: int| is_difference(h1, h2, p, i, j)
}

/// Four points with integer weights: a witness that their convex hull holds
/// the origin.
pub struct Enclosure {
    pub a: Vector,
    pub b: Vector,
    pub c: Vector,
    pub d: Vector,
    pub wa: int,
    pub wb: int,
    pub wc: int,
    pub wd: int,
}

impl Enclosure {
    /// The points belong to the Minkowski difference of the hulls, the
    /// weights are not negative and not all zero, and the weighted sum of
    /// the points is the origin.
    pub open spec fn holds(self, h1: Seq<Vector>, h2: Seq<Vector>) -> bool {
        &&& in_difference(h1, h2, self.a)
        &&& in_difference(h1, h2, self.b)
        &&& in_difference(h1, h2, self.c)
        &&& in_difference(h1, h2, self.d)
        &&& self.wa >= 0
        &&& self.wb >= 0
        &&& self.wc >= 0
        &&& self.wd >= 0
        &&& self.wa + self.wb + self.wc + self.wd > 0
        &&& combination(self.a, self.b, self.c, self.d, self.wa, self.wb, self.wc, self.wd)
            == Vector::origin()
    }

    /// The same witness for the hulls in the other order.
    pub open spec fn mirrored(self) -> Enclosure {
        Enclosure {
            a: self.a.neg(),
            b: self.b.neg(),
            c: self.c.neg(),
            d: self.d.neg(),
            wa: self.wa,
            wb: self.wb,
            wc: self.wc,
            wd: self.wd,
        }
    }
}

/// The origin is a convex combination of at most four points of the
/// Minkowski difference: the convex hulls of the two point sets have a
/// point in common.
pub open spec fn touching(h1: Seq<Vector>, h2: Seq<Vector>) -> bool {
    exists|e: Enclosure| e.holds(h1, h2)
}

/// A product of a weight that is not negative and a negative integer is at
/// most the negated weight.
proof fn lemma_weighted_negative(w: int, x: int)
    by (nonlinear_arith)
    requires
        w >= 0,
        x < 0,
    ensures
        w * x <= -w,
{
}

/// The dot product of a combination is the combination of the dot products.
proof fn lemma_combination_dot(e: Enclosure, dir: Vector)
    ensures
        combination(e.a, e.b, e.c, e.d, e.wa, e.wb, e.wc, e.wd).dot(dir) == e.wa * e.a.dot(dir)
            + e.wb * e.b.dot(dir) + e.wc * e.c.dot(dir) + e.wd * e.d.dot(dir),
{
    broadcast use vstd::arithmetic::mul::group_mul_is_commutative_and_distributive;
    broadcast use vstd::arithmetic::mul::lemma_mul_is_associative;
}

/// Negating the points negates a combination.
proof fn lemma_combination_neg(e: Enclosure)
    by (nonlinear_arith)
    ensures
        combination(e.a.neg(), e.b.neg(), e.c.neg(), e.d.neg(), e.wa, e.wb, e.wc, e.wd)
            == combination(e.a, e.b, e.c, e.d, e.wa, e.wb, e.wc, e.wd).neg(),
{
}

/// A point of the difference lies behind a separating plane.
proof fn lemma_behind(h1: Seq<Vector>, h2: Seq<Vector>, dir: Vector, p: Vector)
    requires
        separates(h1, h2, dir),
        in_difference(h1, h2, p),
    ensures
        p.dot(dir) < 0,
{
    let (i, j) = choose|i: int, j: int| is_difference(h1, h2, p, i, j);
    assert(vertices(h1)[i].sub(vertices(h2)[j]).dot(dir) < 0);
}

/// Hulls that touch have no separating plane.
pub proof fn lemma_touching_not_separated(h1: Seq<Vector>, h2: Seq<Vector>, dir: Vector)
    requires
        touching(h1, h2),
    ensures
        !separates(h1, h2, dir),
{
    if separates(h1, h2, dir) {
        let e = choose|e: Enclosure| e.holds(h1, h2);
        lemma_behind(h1, h2, dir, e.a);
        lemma_behind(h1, h2, dir, e.b);
        lemma_behind(h1, h2, dir, e.c);
        lemma_behind(h1, h2, dir, e.d);
        lemma_combination_dot(e, dir);
        lemma_weighted_negative(e.wa, e.a.dot(dir));
        lemma_weighted_negative(e.wb, e.b.dot(dir));
        lemma_weighted_negative(e.wc, e.c.dot(dir));
        lemma_weighted_negative(e.wd, e.d.dot(dir));
        assert(Vector::origin().dot(dir) == 0);
        assert(false);
    }
}

/// The negation of a point of the difference of two hulls is a point of
/// their difference in the other order.
proof fn lemma_difference_mirrored(h1: Seq<Vector>, h2: Seq<Vector>, p: Vector)
    requires
        in_difference(h1, h2, p),
    ensures
        in_difference(h2, h1, p.neg()),
{
    let (i, j) = choose|i: int, j: int| is_difference(h1, h2, p, i, j);
    assert(is_difference(h2, h1, p.neg(), j, i));
}

/// Touching does not depend on the order of the hulls.
pub proof fn lemma_touching_symmetric(h1: Seq<Vector>, h2: Seq<Vector>)
    requires
        touching(h1, h2),
    ensures
        touching(h2, h1),
{
    let e = choose|e: Enclosure| e.holds(h1, h2);
    lemma_difference_mirrored(h1, h2, e.a);
    lemma_difference_mirrored(h1, h2, e.b);
    lemma_difference_mirrored(h1, h2, e.c);
    lemma_difference_mirrored(h1, h2, e.d);
    lemma_combination_neg(e);
    assert(e.mirrored().holds(h2, h1));
}

/// Every point that `hull` stands for is a point that `other` stands for.
pub open spec fn covers(other: Seq<Vector>, hull: Seq<Vector>) -> bool {
    forall|i: int|
        0 <= i < vertices(hull).len() ==> vertices(other).contains(#[trigger] vertices(hull)[i])
}

/// A point of a difference of hulls is a point of the difference of hulls
/// that cover them.
proof fn lemma_difference_covered(
    h1: Seq<Vector>,
    h2: Seq<Vector>,
    k1: Seq<Vector>,
    k2: Seq<Vector>,
    p: Vector,
)
    requires
        covers(k1, h1),
        covers(k2, h2),
        in_difference(h1, h2, p),
    ensures
        in_difference(k1, k2, p),
{
    let (i, j) = choose|i: int, j: int| is_difference(h1, h2, p, i, j);
    assert(vertices(k1).contains(vertices(h1)[i]));
    assert(vertices(k2).contains(vertices(h2)[j]));
    let i2 = choose|i2: int| 0 <= i2 < vertices(k1).len() && vertices(k1)[i2] == vertices(h1)[i];
    let j2 = choose|j2: int| 0 <= j2 < vertices(k2).len() && vertices(k2)[j2] == vertices(h2)[j];
    assert(is_difference(k1, k2, p, i2, j2));
}

/// Hulls that cover touching hulls touch.
pub proof fn lemma_touching_covered(
    h1: Seq<Vector>,
    h2: Seq<Vector>,
    k1: Seq<Vector>,
    k2: Seq<Vector>,
)
    requires
        covers(k1, h1),
        covers(k2, h2),
        touching(h1, h2),
    ensures
        touching(k1, k2),
{
    let e = choose|e: Enclosure| e.holds(h1, h2);
    lemma_difference_covered(h1, h2, k1, k2, e.a);
    lemma_difference_covered(h1, h2, k1, k2, e.b);
    lemma_difference_covered(h1, h2, k1, k2, e.c);
    lemma_difference_covered(h1, h2, k1, k2, e.d);
    assert(e.holds(k1, k2));
}

/// The sum of the first `n` weights.
pub open spec fn total(weights: Seq<int>, n: nat) -> int
    decreases n,
{
    if n == 0 {
        0
    } else {
        total(weights, (n - 1) as nat) + weights[n - 1]
    }
}

/// The sum of the first `n` points, each multiplied by its weight.
pub open spec fn weighted_sum(points: Seq<Vector>, weights: Seq<int>, n: nat) -> Vector
    decreases n,
{
    if n == 0 {
        Vector::origin()
    } else {
        let rest = weighted_sum(points, weights, (n - 1) as nat);
        let last = points[n - 1].scale(weights[n - 1]);
        Vector { x: rest.x + last.x, y: rest.y + last.y, z: rest.z + last.z }
    }
}

/// `p` is the convex combination of `points` with the given integer
/// weights, which are not negative and not all zero: a point of their
/// convex hull.
pub open spec fn is_convex_combination(p: Vector, points: Seq<Vector>, weights: Seq<int>) -> bool {
    &&& weights.len() == points.len()
    &&& forall|i: int| 0 <= i < weights.len() ==> #[trigger] weights[i] >= 0
    &&& total(weights, weights.len()) > 0
    &&& weighted_sum(points, weights, points.len()) == p.scale(total(weights, weights.len()))
}

/// The dot product of a scaled vector, and of a sum of two vectors.
proof fn lemma_dot_linear(rest: Vector, p: Vector, w: int, dir: Vector)
    ensures
        p.scale(w).dot(dir) == w * p.dot(dir),
        ({
            let last = p.scale(w);
            let all = Vector { x: rest.x + last.x, y: rest.y + last.y, z: rest.z + last.z };
            all.dot(dir) == rest.dot(dir) + w * p.dot(dir)
        }),
{
    broadcast use vstd::arithmetic::mul::group_mul_is_commutative_and_distributive;
    broadcast use vstd::arithmetic::mul::lemma_mul_is_associative;
}

/// A weight times a negative difference is at most the negated weight.
proof fn lemma_weight_step(w: int, sum: int, pd: int, qd: int)
    by (nonlinear_arith)
    requires
        w >= 0,
        pd - qd < 0,
    ensures
        w * pd - w * qd <= -w,
        (sum + w) * qd == sum * qd + w * qd,
{
}

/// A positive multiple of a difference is negative only if the difference
/// is.
proof fn lemma_weight_cancel(sum: int, pd: int, qd: int)
    by (nonlinear_arith)
    requires
        sum > 0,
        sum * pd - sum * qd <= -sum,
    ensures
        pd - qd < 0,
{
}

/// One more weighted point along a direction, measured from `q`.
proof fn lemma_weighted_step(rest: Vector, p: Vector, w: int, sum: int, q: Vector, dir: Vector)
    requires
        w >= 0,
        p.dot(dir) - q.dot(dir) < 0,
        rest.dot(dir) - sum * q.dot(dir) <= -sum,
    ensures
        ({
            let last = p.scale(w);
            let all = Vector { x: rest.x + last.x, y: rest.y + last.y, z: rest.z + last.z };
            all.dot(dir) - (sum + w) * q.dot(dir) <= -(sum + w)
        }),
{
    lemma_dot_linear(rest, p, w, dir);
    lemma_weight_step(w, sum, p.dot(dir), q.dot(dir));
}

/// A weighted sum of points that all lie behind the plane through `q` with
/// normal `dir` lies behind it by at least the sum of the weights.
proof fn lemma_weighted_behind(
    points: Seq<Vector>,
    weights: Seq<int>,
    n: nat,
    q: Vector,
    dir: Vector,
)
    requires
        n <= points.len() == weights.len(),
        forall|i: int| 0 <= i < weights.len() ==> #[trigger] weights[i] >= 0,
        forall|i: int| 0 <= i < points.len() ==> (#[trigger] points[i]).sub(q).dot(dir) < 0,
    ensures
        weighted_sum(points, weights, n).dot(dir) - total(weights, n) * q.dot(dir) <= -total(
            weights,
            n,
        ),
    decreases n,
{
    if n == 0 {
        assert(0 * q.dot(dir) == 0) by (nonlinear_arith);
    } else {
        lemma_weighted_behind(points, weights, (n - 1) as nat, q, dir);
        let last = points[n - 1];
        assert(last.sub(q).dot(dir) < 0);
        lemma_dot_sub(last, q, dir);
        lemma_weighted_step(
            weighted_sum(points, weights, (n - 1) as nat),
            last,
            weights[n - 1],
            total(weights, (n - 1) as nat),
            q,
            dir,
        );
    }
}

/// A point that lies behind a plane by a positive multiple lies behind it.
proof fn lemma_scaled_behind(p: Vector, q: Vector, dir: Vector, sum: int)
    requires
        sum > 0,
        p.scale(sum).dot(dir) - sum * q.dot(dir) <= -sum,
    ensures
        p.sub(q).dot(dir) < 0,
{
    lemma_dot_linear(p, p, sum, dir);
    lemma_weight_cancel(sum, p.dot(dir), q.dot(dir));
    lemma_dot_sub(p, q, dir);
}

/// A plane that separates two hulls also separates them when a point of the
/// convex hull of the first is added to it.
pub proof fn lemma_separates_inner_point(
    h1: Seq<Vector>,
    h2: Seq<Vector>,
    p: Vector,
    weights: Seq<int>,
    dir: Vector,
)
    requires
        is_convex_combination(p, h1, weights),
        separates(h1, h2, dir),
    ensures
        separates(h1.push(p), h2, dir),
{
    assert(h1.len() > 0);
    let more = h1.push(p);
    assert forall|i: int, j: int|
        0 <= i < vertices(more).len() && 0 <= j < vertices(h2).len() implies (#[trigger] vertices(
        more,
    )[i]).sub(#[trigger] vertices(h2)[j]).dot(dir) < 0 by {
        let q = vertices(h2)[j];
        if i < h1.len() {
            assert(vertices(h1)[i].sub(q).dot(dir) < 0);
        } else {
            assert forall|k: int| 0 <= k < h1.len() implies (#[trigger] h1[k]).sub(q).dot(dir)
                < 0 by {
                assert(vertices(h1)[k].sub(q).dot(dir) < 0);
            }
            lemma_weighted_behind(h1, weights, h1.len(), q, dir);
            lemma_scaled_behind(p, q, dir, total(weights, weights.len()));
        }
    }
}

} // verus!
