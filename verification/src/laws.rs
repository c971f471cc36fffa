//! What the verdicts mean, and how the search treats particular hulls.

use vstd::prelude::*;
use crate::convex::{
    covers, is_convex_combination, lemma_separates_inner_point, lemma_touching_covered,
    lemma_touching_not_separated, lemma_touching_symmetric, separates, touching, vertices,
};
use crate::intersect::{intersects, search, seed};
use crate::progress::{lemma_search_touching, lemma_seed_on_track, lemma_support_in_difference};
use crate::simplex::{step, Search, Step};
use crate::support::{farthest_point, lemma_farthest_exists, support_point};
use crate::vector::{lemma_dot_neg, lemma_dot_sub, lemma_norm_positive, Vector};

verus! {

/// No point that a hull stands for is farther along `dir` than its support
/// point.
pub proof fn lemma_farthest_is_extreme(hull: Seq<Vector>, dir: Vector, i: int)
    requires
        0 <= i < vertices(hull).len(),
    ensures
        vertices(hull)[i].dot(dir) <= farthest_point(hull, dir).dot(dir),
{
    if hull.len() > 0 {
        let k = lemma_farthest_exists(hull, dir);
    }
}

/// No point of the Minkowski difference is farther along `dir` than the
/// support point of the difference.
pub proof fn lemma_support_is_extreme(h1: Seq<Vector>, h2: Seq<Vector>, dir: Vector, i: int, j: int)
    requires
        0 <= i < vertices(h1).len(),
        0 <= j < vertices(h2).len(),
    ensures
        vertices(h1)[i].sub(vertices(h2)[j]).dot(dir) <= support_point(h1, h2, dir).dot(dir),
{
    let p = vertices(h1)[i];
    let q = vertices(h2)[j];
    let fp = farthest_point(h1, dir);
    let fq = farthest_point(h2, dir.neg());
    lemma_farthest_is_extreme(h1, dir, i);
    lemma_farthest_is_extreme(h2, dir.neg(), j);
    lemma_dot_sub(p, q, dir);
    lemma_dot_sub(fp, fq, dir);
    lemma_dot_neg(q, dir);
    lemma_dot_neg(fq, dir);
}

/// A support point short of the origin along `dir` shows that `dir`
/// separates the hulls.
pub proof fn lemma_short_support_separates(h1: Seq<Vector>, h2: Seq<Vector>, dir: Vector)
    requires
        support_point(h1, h2, dir).dot(dir) < 0,
    ensures
        separates(h1, h2, dir),
{
    assert forall|i: int, j: int|
        0 <= i < vertices(h1).len() && 0 <= j < vertices(h2).len() implies (#[trigger] vertices(
        h1,
    )[i]).sub(#[trigger] vertices(h2)[j]).dot(dir) < 0 by {
        lemma_support_is_extreme(h1, h2, dir, i, j);
    }
}

/// A loop that ends with the verdict "apart" has found a separating plane.
proof fn lemma_search_apart(h1: Seq<Vector>, h2: Seq<Vector>, state: Search<Vector>, fuel: nat)
    -> (dir: Vector)
    requires
        search(h1, h2, state, fuel) == Some(false),
    ensures
        separates(h1, h2, dir),
    decreases fuel,
{
    let a = support_point(h1, h2, state.dir);
    if a.dot(state.dir) < 0 {
        lemma_short_support_separates(h1, h2, state.dir);
        state.dir
    } else {
        match step(a, state.simplex) {
            Step::Enclosed => state.dir,
            Step::Continue(next) => lemma_search_apart(h1, h2, next, (fuel - 1) as nat),
        }
    }
}

/// The verdict "apart" is sound: whenever it is given, whatever the number
/// of iterations allowed, some plane through the origin has the whole
/// Minkowski difference strictly on one side, so the convex hulls have no
/// point in common.
pub proof fn lemma_apart_is_separated(h1: Seq<Vector>, h2: Seq<Vector>, fuel: nat)
    requires
        intersects(h1, h2, fuel) == Some(false),
    ensures
        exists|dir: Vector| separates(h1, h2, dir),
{
    let c = support_point(h1, h2, Vector::ones());
    let s = c.neg();
    let b = support_point(h1, h2, s);
    if b.dot(s) < 0 {
        lemma_short_support_separates(h1, h2, s);
        assert(separates(h1, h2, s));
    } else {
        let dir = lemma_search_apart(h1, h2, seed(b, c), fuel);
        assert(separates(h1, h2, dir));
    }
}

/// The verdict "intersecting" is sound: whenever it is given, whatever the
/// number of iterations allowed, the origin is a convex combination of
/// points of the Minkowski difference, so the convex hulls have a point in
/// common.
pub proof fn lemma_intersecting_is_touching(h1: Seq<Vector>, h2: Seq<Vector>, fuel: nat)
    requires
        intersects(h1, h2, fuel) == Some(true),
    ensures
        touching(h1, h2),
{
    let c = support_point(h1, h2, Vector::ones());
    let s = c.neg();
    let b = support_point(h1, h2, s);
    lemma_support_in_difference(h1, h2, Vector::ones());
    lemma_support_in_difference(h1, h2, s);
    lemma_seed_on_track(h1, h2, b, c);
    lemma_search_touching(h1, h2, seed(b, c), fuel);
}

/// Every verdict is right: where the search reaches one, it is `true` if
/// the convex hulls have a point in common, and `false` if they have none.
pub proof fn lemma_verdict_is_right(h1: Seq<Vector>, h2: Seq<Vector>, fuel: nat)
    requires
        intersects(h1, h2, fuel) is Some,
    ensures
        intersects(h1, h2, fuel) == Some(touching(h1, h2)),
{
    if intersects(h1, h2, fuel).unwrap() {
        lemma_intersecting_is_touching(h1, h2, fuel);
    } else {
        lemma_apart_is_separated(h1, h2, fuel);
        let dir = choose|dir: Vector| separates(h1, h2, dir);
        if touching(h1, h2) {
            lemma_touching_not_separated(h1, h2, dir);
        }
    }
}

/// The verdict does not depend on the order of the hulls: two searches on
/// the same hulls in either order, of which both or neither reach a verdict
/// within the iterations allowed to them, end alike.
pub proof fn lemma_verdict_symmetric(h1: Seq<Vector>, h2: Seq<Vector>, fuel1: nat, fuel2: nat)
    requires
        intersects(h1, h2, fuel1) is Some == intersects(h2, h1, fuel2) is Some,
    ensures
        intersects(h1, h2, fuel1) == intersects(h2, h1, fuel2),
{
    if intersects(h1, h2, fuel1) is Some {
        lemma_verdict_is_right(h1, h2, fuel1);
        lemma_verdict_is_right(h2, h1, fuel2);
        if touching(h1, h2) {
            lemma_touching_symmetric(h1, h2);
        }
        if touching(h2, h1) {
            lemma_touching_symmetric(h2, h1);
        }
    }
}

/// The verdict depends on the points alone, not on their order nor on how
/// often each is given: two searches on pairs of hulls that stand for the
/// same points, of which both or neither reach a verdict, end alike.
pub proof fn lemma_verdict_by_points(
    h1: Seq<Vector>,
    h2: Seq<Vector>,
    k1: Seq<Vector>,
    k2: Seq<Vector>,
    fuel1: nat,
    fuel2: nat,
)
    requires
        covers(h1, k1) && covers(k1, h1),
        covers(h2, k2) && covers(k2, h2),
        intersects(h1, h2, fuel1) is Some == intersects(k1, k2, fuel2) is Some,
    ensures
        intersects(h1, h2, fuel1) == intersects(k1, k2, fuel2),
{
    if intersects(h1, h2, fuel1) is Some {
        lemma_verdict_is_right(h1, h2, fuel1);
        lemma_verdict_is_right(k1, k2, fuel2);
        if touching(h1, h2) {
            lemma_touching_covered(h1, h2, k1, k2);
        }
        if touching(k1, k2) {
            lemma_touching_covered(k1, k2, h1, h2);
        }
    }
}

/// Adding a point that lies inside a hull leaves the verdict as it is: two
/// searches, one on a pair of hulls and one on the same pair with a point of
/// the convex hull of the first added to it, of which both or neither reach
/// a verdict, end alike.
pub proof fn lemma_verdict_with_inner_point(
    h1: Seq<Vector>,
    h2: Seq<Vector>,
    p: Vector,
    weights: Seq<int>,
    fuel1: nat,
    fuel2: nat,
)
    requires
        is_convex_combination(p, h1, weights),
        intersects(h1, h2, fuel1) is Some == intersects(h1.push(p), h2, fuel2) is Some,
    ensures
        intersects(h1, h2, fuel1) == intersects(h1.push(p), h2, fuel2),
{
    let more = h1.push(p);
    if intersects(h1, h2, fuel1) is Some {
        lemma_verdict_is_right(h1, h2, fuel1);
        lemma_verdict_is_right(more, h2, fuel2);
        if touching(h1, h2) {
            assert(covers(more, h1)) by {
                assert forall|i: int| 0 <= i < vertices(h1).len() implies vertices(
                    more,
                ).contains(#[trigger] vertices(h1)[i]) by {
                    assert(vertices(more)[i] == vertices(h1)[i]);
                }
            }
            assert(covers(h2, h2)) by {
                assert forall|j: int| 0 <= j < vertices(h2).len() implies vertices(h2).contains(
                    #[trigger] vertices(h2)[j],
                ) by {}
            }
            lemma_touching_covered(h1, h2, more, h2);
        } else {
            lemma_apart_is_separated(h1, h2, fuel1);
            let dir = choose|dir: Vector| separates(h1, h2, dir);
            lemma_separates_inner_point(h1, h2, p, weights, dir);
            if touching(more, h2) {
                lemma_touching_not_separated(more, h2, dir);
            }
        }
    }
}

/// Hulls that share a point are never reported apart.
pub proof fn lemma_shared_point_never_apart(
    h1: Seq<Vector>,
    h2: Seq<Vector>,
    i: int,
    j: int,
    fuel: nat,
)
    requires
        0 <= i < vertices(h1).len(),
        0 <= j < vertices(h2).len(),
        vertices(h1)[i] == vertices(h2)[j],
    ensures
        intersects(h1, h2, fuel) != Some(false),
{
    if intersects(h1, h2, fuel) == Some(false) {
        lemma_apart_is_separated(h1, h2, fuel);
        let dir = choose|dir: Vector| separates(h1, h2, dir);
        assert(vertices(h1)[i].sub(vertices(h2)[j]).dot(dir) < 0);
        lemma_dot_sub(vertices(h1)[i], vertices(h2)[j], dir);
    }
}

/// Every hull intersects itself: a search on a hull and itself that reaches
/// a verdict reports an intersection.
pub proof fn lemma_verdict_reflexive(hull: Seq<Vector>, fuel: nat)
    requires
        intersects(hull, hull, fuel) is Some,
    ensures
        intersects(hull, hull, fuel) == Some(true),
{
    lemma_shared_point_never_apart(hull, hull, 0, 0, fuel);
}

/// The loop depends on the hulls through their support points alone.
proof fn lemma_search_by_support(
    h1: Seq<Vector>,
    h2: Seq<Vector>,
    k1: Seq<Vector>,
    k2: Seq<Vector>,
    state: Search<Vector>,
    fuel: nat,
)
    requires
        forall|dir: Vector| #[trigger] support_point(h1, h2, dir) == support_point(k1, k2, dir),
    ensures
        search(h1, h2, state, fuel) == search(k1, k2, state, fuel),
    decreases fuel,
{
    if fuel > 0 {
        let a = support_point(h1, h2, state.dir);
        assert(a == support_point(k1, k2, state.dir));
        if a.dot(state.dir) >= 0 {
            match step(a, state.simplex) {
                Step::Enclosed => {},
                Step::Continue(next) => {
                    lemma_search_by_support(h1, h2, k1, k2, next, (fuel - 1) as nat);
                },
            }
        }
    }
}

/// Two pairs of hulls with the same support point along every direction get
/// the same verdict.
pub proof fn lemma_verdict_by_support(
    h1: Seq<Vector>,
    h2: Seq<Vector>,
    k1: Seq<Vector>,
    k2: Seq<Vector>,
    fuel: nat,
)
    requires
        forall|dir: Vector| #[trigger] support_point(h1, h2, dir) == support_point(k1, k2, dir),
    ensures
        intersects(h1, h2, fuel) == intersects(k1, k2, fuel),
{
    let c = support_point(h1, h2, Vector::ones());
    assert(c == support_point(k1, k2, Vector::ones()));
    let s = c.neg();
    let b = support_point(h1, h2, s);
    assert(b == support_point(k1, k2, s));
    lemma_search_by_support(h1, h2, k1, k2, seed(b, c), fuel);
}

/// The support point of a hull of one point is that point.
pub proof fn lemma_farthest_of_one(p: Vector, dir: Vector)
    ensures
        farthest_point(seq![p], dir) == p,
{
    let i = lemma_farthest_exists(seq![p], dir);
}

/// An empty hull is the hull of the origin alone: in either position, the
/// two get the same verdict against every other hull.
pub proof fn lemma_empty_hull_is_origin(hull: Seq<Vector>, fuel: nat)
    ensures
        intersects(Seq::empty(), hull, fuel) == intersects(seq![Vector::origin()], hull, fuel),
        intersects(hull, Seq::empty(), fuel) == intersects(hull, seq![Vector::origin()], fuel),
{
    let none = Seq::<Vector>::empty();
    let one = seq![Vector::origin()];
    assert forall|dir: Vector| #[trigger]
        support_point(none, hull, dir) == support_point(one, hull, dir) by {
        lemma_farthest_of_one(Vector::origin(), dir);
    }
    assert forall|dir: Vector| #[trigger]
        support_point(hull, none, dir) == support_point(hull, one, dir) by {
        lemma_farthest_of_one(Vector::origin(), dir.neg());
    }
    lemma_verdict_by_support(none, hull, one, hull, fuel);
    lemma_verdict_by_support(hull, none, hull, one, fuel);
}

/// Two hulls of one point each intersect exactly when the points are equal,
/// and two iterations are enough to find that out.
pub proof fn lemma_single_points(p: Vector, q: Vector, fuel: nat)
    requires
        fuel >= 2,
    ensures
        intersects(seq![p], seq![q], fuel) == Some(p == q),
{
    let h1 = seq![p];
    let h2 = seq![q];
    let v = p.sub(q);
    assert forall|dir: Vector| #[trigger] support_point(h1, h2, dir) == v by {
        lemma_farthest_of_one(p, dir);
        lemma_farthest_of_one(q, dir.neg());
    }
    let c = support_point(h1, h2, Vector::ones());
    let s = c.neg();
    let b = support_point(h1, h2, s);
    assert(c == v && b == v);
    lemma_dot_neg(v, v);
    if p == q {
        assert(v == Vector::origin());
        let first = seed(b, c);
        assert(support_point(h1, h2, first.dir) == v);
        let second = step(v, first.simplex);
        assert(second is Continue);
        let next = second->Continue_0;
        assert(support_point(h1, h2, next.dir) == v);
        assert(step(v, next.simplex) is Enclosed);
        assert(search(h1, h2, next, (fuel - 1) as nat) == Some(true));
        assert(search(h1, h2, first, fuel) == Some(true));
    } else {
        assert(v != Vector::origin());
        lemma_norm_positive(v);
    }
}

} // verus!
