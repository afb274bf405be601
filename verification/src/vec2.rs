//! Two-component vectors over any scalar that can be added, subtracted and
//! multiplied.

use vstd::prelude::*;
use vstd::std_specs::ops::{AddSpec, MulSpec, SubSpec};
use std::ops::{Add, Mul, Sub};

verus! {

#[derive(Debug, PartialEq, Eq, Copy, Clone, Hash)]
pub struct Vec2<T> {
    pub x: T,
    pub y: T,
}

/// The sum of the products of the components, in terms of the scalar's own
/// operations.
pub open spec fn dot_spec<T: Add<Output = T> + Mul<Output = T>>(a: Vec2<T>, b: Vec2<T>) -> T {
    a.x.mul_spec(b.x).add_spec(a.y.mul_spec(b.y))
}

/// Whether the scalar's operations allow the dot product of `a` and `b`.
pub open spec fn dot_req<T: Add<Output = T> + Mul<Output = T>>(a: Vec2<T>, b: Vec2<T>) -> bool {
    &&& a.x.mul_req(b.x)
    &&& a.y.mul_req(b.y)
    &&& a.x.mul_spec(b.x).add_req(a.y.mul_spec(b.y))
}

impl<T: Add<Output = T> + Sub<Output = T> + Copy> Vec2<T> {
    pub fn new(x: T, y: T) -> (v: Vec2<T>)
        ensures
            v.x == x,
            v.y == y,
    {
        Vec2 { x, y }
    }

    /// The componentwise sum.
    pub fn add(self, other: Vec2<T>) -> (sum: Vec2<T>)
        requires
            self.x.add_req(other.x),
            self.y.add_req(other.y),
        ensures
            T::obeys_add_spec() ==> sum.x == self.x.add_spec(other.x) && sum.y == self.y.add_spec(
                other.y,
            ),
    {
        Vec2 { x: self.x + other.x, y: self.y + other.y }
    }

    /// The componentwise difference.
    pub fn sub(self, other: Vec2<T>) -> (difference: Vec2<T>)
        requires
            self.x.sub_req(other.x),
            self.y.sub_req(other.y),
        ensures
            T::obeys_sub_spec() ==> difference.x == self.x.sub_spec(other.x) && difference.y
                == self.y.sub_spec(other.y),
    {
        Vec2 { x: self.x - other.x, y: self.y - other.y }
    }
}

impl<T: Add<Output = T> + Sub<Output = T> + Mul<Output = T> + Copy> Vec2<T> {
    /// The componentwise product.
    pub fn mul(self, other: Vec2<T>) -> (product: Vec2<T>)
        requires
            self.x.mul_req(other.x),
            self.y.mul_req(other.y),
        ensures
            T::obeys_mul_spec() ==> product.x == self.x.mul_spec(other.x) && product.y
                == self.y.mul_spec(other.y),
    {
        Vec2 { x: self.x * other.x, y: self.y * other.y }
    }

    /// The dot product.
    pub fn dot(a: Vec2<T>, b: Vec2<T>) -> (d: T)
        requires
            T::obeys_mul_spec(),
            T::obeys_add_spec(),
            dot_req(a, b),
        ensures
            d == dot_spec(a, b),
    {
        a.x * b.x + a.y * b.y
    }
}

/// The dot product of two vectors.
pub fn dot<T>(a: Vec2<T>, b: Vec2<T>) -> (d: T) where
    T: Add<Output = T> + Sub<Output = T> + Mul<Output = T> + Copy,

    requires
        T::obeys_mul_spec(),
        T::obeys_add_spec(),
        dot_req(a, b),
    ensures
        d == dot_spec(a, b),
{
    a.x * b.x + a.y * b.y
}

/// On 32-bit integers the dot product is the sum of the products, as long
/// as neither a product nor the sum leaves the type's range.
pub proof fn lemma_dot_i32(a: Vec2<i32>, b: Vec2<i32>)
    requires
        i32::MIN <= a.x * b.x <= i32::MAX,
        i32::MIN <= a.y * b.y <= i32::MAX,
        i32::MIN <= a.x * b.x + a.y * b.y <= i32::MAX,
    ensures
        dot_req(a, b),
        dot_spec(a, b) == a.x * b.x + a.y * b.y,
{
}

} // verus!
