//! Support mapping: the point of a hull farthest along a direction, and the
//! support point of the Minkowski difference of two hulls.

use vstd::prelude::*;
use crate::vector::{Vec3, Vector};

verus! {

/// The mathematical points of a hull held as machine vectors.
pub open spec fn points_of(hull: Seq<Vec3>) -> Seq<Vector> {
    Seq::new(hull.len(), |i: int| hull[i]@)
}

/// Every point of `points` has magnitude at most `bound`.
pub open spec fn within(points: Seq<Vector>, bound: int) -> bool {
    forall|i: int| 0 <= i < points.len() ==> (#[trigger] points[i]).mag() <= bound
}

/// `i` is the first index at which `points` attains its greatest dot product
/// with `dir`.
pub open spec fn is_farthest(points: Seq<Vector>, dir: Vector, i: int) -> bool {
    &&& 0 <= i < points.len()
    &&& forall|j: int| 0 <= j < points.len() ==> (#[trigger] points[j]).dot(dir) <= points[i].dot(dir)
    &&& forall|j: int| 0 <= j < i ==> (#[trigger] points[j]).dot(dir) < points[i].dot(dir)
}

/// The support point of `points` along `dir`: the first point with the
/// greatest dot product, and the origin when there is no point.
pub open spec fn farthest_point(points: Seq<Vector>, dir: Vector) -> Vector {
    if points.len() == 0 {
        Vector::origin()
    } else {
        points[choose|i: int| is_farthest(points, dir, i)]
    }
}

/// The support point of the Minkowski difference of `a` and `b` along `dir`.
pub open spec fn support_point(a: Seq<Vector>, b: Seq<Vector>, dir: Vector) -> Vector {
    farthest_point(a, dir).sub(farthest_point(b, dir.neg()))
}

/// At most one index is the first maximum.
pub proof fn lemma_farthest_unique(points: Seq<Vector>, dir: Vector, i: int, j: int)
    requires
        is_farthest(points, dir, i),
        is_farthest(points, dir, j),
    ensures
        i == j,
{
    if i < j {
        assert(points[i].dot(dir) < points[j].dot(dir));
    } else if j < i {
        assert(points[j].dot(dir) < points[i].dot(dir));
    }
}

/// The first maximum among the first `n` points.
proof fn lemma_prefix_farthest(points: Seq<Vector>, dir: Vector, n: int) -> (i: int)
    requires
        1 <= n <= points.len(),
    ensures
        is_farthest(points.take(n), dir, i),
    decreases n,
{
    let prefix = points.take(n);
    if n == 1 {
        0
    } else {
        let k = lemma_prefix_farthest(points, dir, n - 1);
        let shorter = points.take(n - 1);
        assert forall|j: int| 0 <= j < n - 1 implies prefix[j] == shorter[j] by {}
        if points[n - 1].dot(dir) > points[k].dot(dir) {
            assert forall|j: int| 0 <= j < n - 1 implies (#[trigger] prefix[j]).dot(dir)
                < prefix[n - 1].dot(dir) by {
                assert(shorter[j].dot(dir) <= shorter[k].dot(dir));
            }
            n - 1
        } else {
            assert forall|j: int| 0 <= j < n implies (#[trigger] prefix[j]).dot(dir)
                <= prefix[k].dot(dir) by {
                if j < n - 1 {
                    assert(shorter[j].dot(dir) <= shorter[k].dot(dir));
                }
            }
            assert forall|j: int| 0 <= j < k implies (#[trigger] prefix[j]).dot(dir)
                < prefix[k].dot(dir) by {
                assert(shorter[j].dot(dir) < shorter[k].dot(dir));
            }
            k
        }
    }
}

/// A hull with at least one point has a first maximum along every direction,
/// and `farthest_point` is that point.
pub proof fn lemma_farthest_exists(points: Seq<Vector>, dir: Vector) -> (i: int)
    requires
        points.len() > 0,
    ensures
        is_farthest(points, dir, i),
        farthest_point(points, dir) == points[i],
{
    let i = lemma_prefix_farthest(points, dir, points.len() as int);
    assert(points.take(points.len() as int) =~= points);
    let chosen = choose|k: int| is_farthest(points, dir, k);
    lemma_farthest_unique(points, dir, i, chosen);
    i
}

/// The support point of a hull is the origin or one of its points, so it is
/// no larger than the largest of them.
pub proof fn lemma_farthest_within(points: Seq<Vector>, dir: Vector, bound: int)
    requires
        within(points, bound),
        0 <= bound,
    ensures
        farthest_point(points, dir).mag() <= bound,
{
    if points.len() > 0 {
        let i = lemma_farthest_exists(points, dir);
    }
}

/// The point of `vertices` farthest along `direction`; the first such point
/// where several are equally far, and the origin where `vertices` is empty.
pub fn farthest(vertices: &[Vec3], direction: Vec3) -> (r: Vec3)
    requires
        forall|i: int|
            0 <= i < vertices@.len() ==> (#[trigger] vertices@[i])@.dot_fits(direction@),
    ensures
        r@ == farthest_point(points_of(vertices@), direction@),
        vertices@.len() > 0 ==> exists|i: int|
            0 <= i < vertices@.len() && r == vertices@[i] && is_farthest(
                points_of(vertices@),
                direction@,
                i,
            ),
{
    let n: usize = vertices.len();
    if n == 0 {
        return Vec3(0, 0, 0);
    }
    let ghost points = points_of(vertices@);
    let mut best: usize = 0;
    let mut max: i128 = vertices[0].dot(direction);
    let mut k: usize = 1;
    while k < n
        invariant
            n == vertices@.len(),
            points == points_of(vertices@),
            1 <= k <= n,
            0 <= best < k,
            max == points[best as int].dot(direction@),
            forall|j: int| 0 <= j < k ==> (#[trigger] points[j]).dot(direction@) <= max,
            forall|j: int| 0 <= j < best ==> (#[trigger] points[j]).dot(direction@) < max,
            forall|i: int|
                0 <= i < vertices@.len() ==> (#[trigger] vertices@[i])@.dot_fits(direction@),
        decreases n - k,
    {
        let current: i128 = vertices[k].dot(direction);
        assert(current == points[k as int].dot(direction@));
        if current > max {
            max = current;
            best = k;
        }
        k = k + 1;
    }
    proof {
        assert(is_farthest(points, direction@, best as int));
        let i = lemma_farthest_exists(points, direction@);
        lemma_farthest_unique(points, direction@, i, best as int);
    }
    vertices[best]
}

/// The support point of the Minkowski difference of two hulls along
/// `direction`: the farthest point of the first along it, minus the farthest
/// point of the second against it.
pub fn support(vertices_a: &[Vec3], vertices_b: &[Vec3], direction: Vec3) -> (r: Vec3)
    requires
        direction@.neg_fits(),
        forall|i: int|
            0 <= i < vertices_a@.len() ==> (#[trigger] vertices_a@[i])@.dot_fits(direction@),
        forall|i: int|
            0 <= i < vertices_b@.len() ==> (#[trigger] vertices_b@[i])@.dot_fits(
                direction@.neg(),
            ),
        farthest_point(points_of(vertices_a@), direction@).sub_fits(
            farthest_point(points_of(vertices_b@), direction@.neg()),
        ),
    ensures
        r@ == support_point(points_of(vertices_a@), points_of(vertices_b@), direction@),
{
    let against = direction.neg();
    farthest(vertices_a, direction).sub(farthest(vertices_b, against))
}

} // verus!
