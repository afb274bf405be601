//! Three-component vectors over any scalar that can be added, subtracted and
//! multiplied.

use vstd::prelude::*;
use vstd::std_specs::ops::{AddSpec, MulSpec, SubSpec};
use std::ops::{Add, Mul, Sub};

verus! {

#[derive(Debug, PartialEq, Eq, Copy, Clone, Hash)]
pub struct Vec3<T> {
    pub x: T,
    pub y: T,
    pub z: T,
}

/// The sum of the products of the components, in terms of the scalar's own
/// operations.
pub open spec fn dot_spec<T: Add<Output = T> + Mul<Output = T>>(a: Vec3<T>, b: Vec3<T>) -> T {
    a.x.mul_spec(b.x).add_spec(a.y.mul_spec(b.y)).add_spec(a.z.mul_spec(b.z))
}

/// Whether the scalar's operations allow the dot product of `a` and `b`.
pub open spec fn dot_req<T: Add<Output = T> + Mul<Output = T>>(a: Vec3<T>, b: Vec3<T>) -> bool {
    &&& a.x.mul_req(b.x)
    &&& a.y.mul_req(b.y)
    &&& a.z.mul_req(b.z)
    &&& a.x.mul_spec(b.x).add_req(a.y.mul_spec(b.y))
    &&& a.x.mul_spec(b.x).add_spec(a.y.mul_spec(b.y)).add_req(a.z.mul_spec(b.z))
}

impl<T: Add<Output = T> + Sub<Output = T> + Copy> Vec3<T> {
    pub fn new(x: T, y: T, z: T) -> (v: Vec3<T>)
        ensures
            v.x == x,
            v.y == y,
            v.z == z,
    {
        Vec3 { x, y, z }
    }

    /// The componentwise sum.
    pub fn add(self, other: Vec3<T>) -> (sum: Vec3<T>)
        requires
            self.x.add_req(other.x),
            self.y.add_req(other.y),
            self.z.add_req(other.z),
        ensures
            T::obeys_add_spec() ==> sum.x == self.x.add_spec(other.x) && sum.y == self.y.add_spec(
                other.y,
            ) && sum.z == self.z.add_spec(other.z),
    {
        Vec3 { x: self.x + other.x, y: self.y + other.y, z: self.z + other.z }
    }

    /// The componentwise difference.
    pub fn sub(self, other: Vec3<T>) -> (difference: Vec3<T>)
        requires
            self.x.sub_req(other.x),
            self.y.sub_req(other.y),
            self.z.sub_req(other.z),
        ensures
            T::obeys_sub_spec() ==> difference.x == self.x.sub_spec(other.x) && difference.y
                == self.y.sub_spec(other.y) && difference.z == self.z.sub_spec(other.z),
    {
        Vec3 { x: self.x - other.x, y: self.y - other.y, z: self.z - other.z }
    }
}

impl<T: Add<Output = T> + Sub<Output = T> + Mul<Output = T> + Copy> Vec3<T> {
    /// The componentwise product.
    pub fn mul(self, other: Vec3<T>) -> (product: Vec3<T>)
        requires
            self.x.mul_req(other.x),
            self.y.mul_req(other.y),
            self.z.mul_req(other.z),
        ensures
            T::obeys_mul_spec() ==> product.x == self.x.mul_spec(other.x) && product.y
                == self.y.mul_spec(other.y) && product.z == self.z.mul_spec(other.z),
    {
        Vec3 { x: self.x * other.x, y: self.y * other.y, z: self.z * other.z }
    }

    /// The dot product.
    pub fn dot(a: Vec3<T>, b: Vec3<T>) -> (d: T)
        requires
            T::obeys_mul_spec(),
            T::obeys_add_spec(),
            dot_req(a, b),
        ensures
            d == dot_spec(a, b),
    {
        a.x * b.x + a.y * b.y + a.z * b.z
    }
}

/// The cross product, in terms of the scalar's own operations.
pub open spec fn cross_spec<T: Sub<Output = T> + Mul<Output = T>>(a: Vec3<T>, b: Vec3<T>) -> Vec3<
    T,
> {
    Vec3 {
        x: a.y.mul_spec(b.z).sub_spec(a.z.mul_spec(b.y)),
        y: a.z.mul_spec(b.x).sub_spec(a.x.mul_spec(b.z)),
        z: a.x.mul_spec(b.y).sub_spec(a.y.mul_spec(b.x)),
    }
}

/// Whether the scalar's operations allow the cross product of `a` and `b`.
pub open spec fn cross_req<T: Sub<Output = T> + Mul<Output = T>>(a: Vec3<T>, b: Vec3<T>) -> bool {
    &&& a.y.mul_req(b.z)
    &&& a.z.mul_req(b.y)
    &&& a.z.mul_req(b.x)
    &&& a.x.mul_req(b.z)
    &&& a.x.mul_req(b.y)
    &&& a.y.mul_req(b.x)
    &&& a.y.mul_spec(b.z).sub_req(a.z.mul_spec(b.y))
    &&& a.z.mul_spec(b.x).sub_req(a.x.mul_spec(b.z))
    &&& a.x.mul_spec(b.y).sub_req(a.y.mul_spec(b.x))
}

/// The cross product of two vectors.
pub fn cross<T>(a: &Vec3<T>, b: &Vec3<T>) -> (c: Vec3<T>) where
    T: Add<Output = T> + Sub<Output = T> + Mul<Output = T> + Copy,

    requires
        T::obeys_mul_spec(),
        cross_req(*a, *b),
    ensures
        T::obeys_sub_spec() ==> c == cross_spec(*a, *b),
{
    Vec3 {
        x: a.y * b.z - a.z * b.y,
        y: a.z * b.x - a.x * b.z,
        z: a.x * b.y - a.y * b.x,
    }
}

/// On 32-bit integers the cross product is perpendicular to both of its
/// factors, as long as no product, difference or sum leaves the type's range.
pub proof fn lemma_cross_perpendicular_i32(a: Vec3<i32>, b: Vec3<i32>)
    requires
        cross_req(a, b),
    ensures
        ({
            let c = cross_spec(a, b);
            &&& a.x * c.x + a.y * c.y + a.z * c.z == 0
            &&& b.x * c.x + b.y * c.y + b.z * c.z == 0
        }),
{
    let c = cross_spec(a, b);
    assert(c.x == a.y * b.z - a.z * b.y);
    assert(c.y == a.z * b.x - a.x * b.z);
    assert(c.z == a.x * b.y - a.y * b.x);
    assert(a.x * (a.y * b.z - a.z * b.y) + a.y * (a.z * b.x - a.x * b.z) + a.z * (a.x * b.y - a.y
        * b.x) == 0) by (nonlinear_arith);
    assert(b.x * (a.y * b.z - a.z * b.y) + b.y * (a.z * b.x - a.x * b.z) + b.z * (a.x * b.y - a.y
        * b.x) == 0) by (nonlinear_arith);
}

/// The dot product of two vectors.
pub fn dot<T>(a: Vec3<T>, b: Vec3<T>) -> (d: T) where
    T: Add<Output = T> + Sub<Output = T> + Mul<Output = T> + Copy,

    requires
        T::obeys_mul_spec(),
        T::obeys_add_spec(),
        dot_req(a, b),
    ensures
        d == dot_spec(a, b),
{
    a.x * b.x + a.y * b.y + a.z * b.z
}

/// On 32-bit integers the dot product is the sum of the products, as long
/// as neither a product nor the sum leaves the type's range.
pub proof fn lemma_dot_i32(a: Vec3<i32>, b: Vec3<i32>)
    requires
        i32::MIN <= a.x * b.x <= i32::MAX,
        i32::MIN <= a.y * b.y <= i32::MAX,
        i32::MIN <= a.z * b.z <= i32::MAX,
        i32::MIN <= a.x * b.x + a.y * b.y <= i32::MAX,
        i32::MIN <= a.x * b.x + a.y * b.y + a.z * b.z <= i32::MAX,
    ensures
        dot_req(a, b),
        dot_spec(a, b) == a.x * b.x + a.y * b.y + a.z * b.z,
{
}

} // verus!
