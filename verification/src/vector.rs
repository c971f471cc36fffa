//! Three-component integer vectors and their algebra.

use vstd::prelude::*;

verus! {

/// The mathematical model of a vector: three unbounded integers.
pub struct Vector {
    pub x: int,
    pub y: int,
    pub z: int,
}

/// `v` can be held in 128 bits.
pub open spec fn fits(v: int) -> bool {
    i128::MIN <= v <= i128::MAX
}

/// The absolute value of an integer.
pub open spec fn abs(v: int) -> int {
    if v < 0 {
        -v
    } else {
        v
    }
}

impl Vector {
    /// The vector with all components zero.
    pub open spec fn origin() -> Vector {
        Vector { x: 0, y: 0, z: 0 }
    }

    /// The vector with all components one.
    pub open spec fn ones() -> Vector {
        Vector { x: 1, y: 1, z: 1 }
    }

    /// Componentwise negation.
    pub open spec fn neg(self) -> Vector {
        Vector { x: -self.x, y: -self.y, z: -self.z }
    }

    /// Componentwise difference.
    pub open spec fn sub(self, right: Vector) -> Vector {
        Vector { x: self.x - right.x, y: self.y - right.y, z: self.z - right.z }
    }

    /// Every component multiplied by `factor`.
    pub open spec fn scale(self, factor: int) -> Vector {
        Vector { x: self.x * factor, y: self.y * factor, z: self.z * factor }
    }

    /// The dot product.
    pub open spec fn dot(self, right: Vector) -> int {
        self.x * right.x + self.y * right.y + self.z * right.z
    }

    /// The squared Euclidean norm.
    pub open spec fn norm2sq(self) -> int {
        self.dot(self)
    }

    /// The right-handed cross product.
    pub open spec fn cross(self, right: Vector) -> Vector {
        Vector {
            x: self.y * right.z - self.z * right.y,
            y: self.z * right.x - self.x * right.z,
            z: self.x * right.y - self.y * right.x,
        }
    }

    /// `(self x right) x self`: a vector in the plane of `self` and `right`,
    /// perpendicular to `self`, on the side of `right`.
    pub open spec fn dcross3(self, right: Vector) -> Vector {
        self.cross(right).cross(self)
    }

    /// The negation can be computed in 128 bits.
    pub open spec fn neg_fits(self) -> bool {
        fits(-self.x) && fits(-self.y) && fits(-self.z)
    }

    /// The difference can be computed in 128 bits.
    pub open spec fn sub_fits(self, right: Vector) -> bool {
        fits(self.x - right.x) && fits(self.y - right.y) && fits(self.z - right.z)
    }

    /// The multiple can be computed in 128 bits.
    pub open spec fn scale_fits(self, factor: int) -> bool {
        fits(self.x * factor) && fits(self.y * factor) && fits(self.z * factor)
    }

    /// The dot product can be computed in 128 bits, its terms added from
    /// left to right.
    pub open spec fn dot_fits(self, right: Vector) -> bool {
        &&& fits(self.x * right.x)
        &&& fits(self.y * right.y)
        &&& fits(self.z * right.z)
        &&& fits(self.x * right.x + self.y * right.y)
        &&& fits(self.dot(right))
    }

    /// The cross product can be computed in 128 bits.
    pub open spec fn cross_fits(self, right: Vector) -> bool {
        &&& fits(self.y * right.z) && fits(self.z * right.y)
        &&& fits(self.z * right.x) && fits(self.x * right.z)
        &&& fits(self.x * right.y) && fits(self.y * right.x)
        &&& fits(self.cross(right).x)
        &&& fits(self.cross(right).y)
        &&& fits(self.cross(right).z)
    }

    /// The largest absolute value among the components.
    pub open spec fn mag(self) -> int {
        let ax = abs(self.x);
        let ay = abs(self.y);
        let az = abs(self.z);
        if ax >= ay && ax >= az {
            ax
        } else if ay >= az {
            ay
        } else {
            az
        }
    }
}

/// A product is bounded by the product of bounds on its factors.
pub proof fn lemma_product_bound(x: int, y: int, bx: int, by: int)
    by (nonlinear_arith)
    requires
        -bx <= x <= bx,
        -by <= y <= by,
    ensures
        -(bx * by) <= x * y <= bx * by,
{
}

/// Multiplication of non-negative integers is monotone in both factors.
pub proof fn lemma_product_monotone(x: int, y: int, bx: int, by: int)
    by (nonlinear_arith)
    requires
        0 <= x <= bx,
        0 <= y <= by,
    ensures
        0 <= x * y <= bx * by,
{
}

/// The dot product is at most three times the product of the magnitudes,
/// and can be computed where that fits.
pub proof fn lemma_dot_bound(a: Vector, b: Vector)
    ensures
        -(3 * (a.mag() * b.mag())) <= a.dot(b) <= 3 * (a.mag() * b.mag()),
        3 * (a.mag() * b.mag()) <= i128::MAX ==> a.dot_fits(b),
{
    lemma_product_bound(a.x, b.x, a.mag(), b.mag());
    lemma_product_bound(a.y, b.y, a.mag(), b.mag());
    lemma_product_bound(a.z, b.z, a.mag(), b.mag());
}

/// Each component of a cross product is at most twice the product of the
/// magnitudes, and the cross product can be computed where that fits.
pub proof fn lemma_cross_bound(a: Vector, b: Vector)
    ensures
        a.cross(b).mag() <= 2 * (a.mag() * b.mag()),
        0 <= a.mag() * b.mag(),
        2 * (a.mag() * b.mag()) <= i128::MAX ==> a.cross_fits(b),
{
    lemma_product_bound(a.y, b.z, a.mag(), b.mag());
    lemma_product_bound(a.z, b.y, a.mag(), b.mag());
    lemma_product_bound(a.z, b.x, a.mag(), b.mag());
    lemma_product_bound(a.x, b.z, a.mag(), b.mag());
    lemma_product_bound(a.x, b.y, a.mag(), b.mag());
    lemma_product_bound(a.y, b.x, a.mag(), b.mag());
}

/// The dot product distributes over a difference in its first argument.
pub proof fn lemma_dot_sub(a: Vector, b: Vector, d: Vector)
    by (nonlinear_arith)
    ensures
        a.sub(b).dot(d) == a.dot(d) - b.dot(d),
{
}

/// Negating the second argument negates the dot product.
pub proof fn lemma_dot_neg(a: Vector, d: Vector)
    by (nonlinear_arith)
    ensures
        a.dot(d.neg()) == -a.dot(d),
{
}

/// A vector other than the origin has a positive squared norm.
pub proof fn lemma_norm_positive(a: Vector)
    by (nonlinear_arith)
    requires
        a != Vector::origin(),
    ensures
        a.norm2sq() > 0,
{
}

/// A point or direction with 128-bit integer components.
#[derive(Clone, Copy, Debug, PartialEq, Eq, Structural)]
pub struct Vec3(pub i128, pub i128, pub i128);

impl View for Vec3 {
    type V = Vector;

    open spec fn view(&self) -> Vector {
        Vector { x: self.0 as int, y: self.1 as int, z: self.2 as int }
    }
}

impl Default for Vec3 {
    fn default() -> (r: Vec3)
        ensures
            r@ == Vector::origin(),
    {
        Vec3(0, 0, 0)
    }
}

impl Vec3 {
    /// The vector with all components one.
    pub fn ones() -> (r: Vec3)
        ensures
            r@ == Vector::ones(),
    {
        Vec3(1, 1, 1)
    }

    /// The dot product of `self` and `right`.
    pub fn dot(&self, right: Vec3) -> (r: i128)
        requires
            self@.dot_fits(right@),
        ensures
            r == self@.dot(right@),
    {
        self.0 * right.0 + self.1 * right.1 + self.2 * right.2
    }

    /// The squared Euclidean norm of `self`.
    pub fn norm2sq(&self) -> (r: i128)
        requires
            self@.dot_fits(self@),
        ensures
            r == self@.norm2sq(),
    {
        self.dot(*self)
    }

    /// `self` with every component multiplied by `factor`.
    pub fn scale(&self, factor: i128) -> (r: Vec3)
        requires
            self@.scale_fits(factor as int),
        ensures
            r@ == self@.scale(factor as int),
    {
        Vec3(self.0 * factor, self.1 * factor, self.2 * factor)
    }

    /// The componentwise difference `self - right`.
    pub fn sub(self, right: Vec3) -> (r: Vec3)
        requires
            self@.sub_fits(right@),
        ensures
            r@ == self@.sub(right@),
    {
        Vec3(self.0 - right.0, self.1 - right.1, self.2 - right.2)
    }

    /// The componentwise negation of `self`.
    pub fn neg(self) -> (r: Vec3)
        requires
            self@.neg_fits(),
        ensures
            r@ == self@.neg(),
    {
        Vec3(-self.0, -self.1, -self.2)
    }
}

/// The right-handed cross product of `a` and `b`.
pub fn cross(a: Vec3, b: Vec3) -> (r: Vec3)
    requires
        a@.cross_fits(b@),
    ensures
        r@ == a@.cross(b@),
{
    Vec3(a.1 * b.2 - a.2 * b.1, a.2 * b.0 - a.0 * b.2, a.0 * b.1 - a.1 * b.0)
}

/// The triple product `(a x b) x c`.
pub fn cross3(a: Vec3, b: Vec3, c: Vec3) -> (r: Vec3)
    requires
        a@.cross_fits(b@),
        a@.cross(b@).cross_fits(c@),
    ensures
        r@ == a@.cross(b@).cross(c@),
{
    cross(cross(a, b), c)
}

/// The double cross product `(a x b) x a`.
pub fn dcross3(a: Vec3, b: Vec3) -> (r: Vec3)
    requires
        a@.cross_fits(b@),
        a@.cross(b@).cross_fits(a@),
    ensures
        r@ == a@.dcross3(b@),
{
    cross3(a, b, a)
}

} // verus!
