use vstd::prelude::*;
use vstd::std_specs::convert::{FromSpec, FromSpecImpl};
use vstd::std_specs::ops::{
    AddSpec, AddSpecImpl, DivSpec, DivSpecImpl, MulSpec, MulSpecImpl, NegSpec, NegSpecImpl,
    SubSpec, SubSpecImpl,
};
use core::ops::{Add, AddAssign, Div, DivAssign, Mul, MulAssign, Neg, Sub, SubAssign};
use crate::scalar::Scalar;

verus! {

/// A pair of coordinates.
#[derive(Clone, Copy, PartialEq, Eq, Hash, Debug)]
pub struct Vector<T> {
    pub x: T,
    pub y: T,
}

impl<T> Vector<T> {
    /// The vector with the given coordinates.
    pub fn new(x: T, y: T) -> (v: Self)
        ensures
            v.x == x,
            v.y == y,
    {
        Self { x, y }
    }

    /// The sum of the products of the coordinates, as the coordinate type
    /// multiplies and adds.
    pub open spec fn spec_dot(self, other: Vector<T>) -> T where T: Mul<Output = T> + Add<Output = T> {
        self.x.mul_spec(other.x).add_spec(self.y.mul_spec(other.y))
    }

    /// The difference of the cross products of the coordinates, as the
    /// coordinate type multiplies and subtracts.
    pub open spec fn spec_perp_dot(self, other: Vector<T>) -> T where
        T: Mul<Output = T> + Sub<Output = T>,
     {
        self.x.mul_spec(other.y).sub_spec(self.y.mul_spec(other.x))
    }

    /// The same vector with each coordinate converted.
    pub fn into<U>(self) -> (v: Vector<U>) where U: From<T>
        ensures
            call_ensures(U::from, (self.x,), v.x),
            call_ensures(U::from, (self.y,), v.y),
            U::obeys_from_spec() ==> v == (Vector { x: U::from_spec(self.x), y: U::from_spec(self.y) }),
    {
        Vector { x: U::from(self.x), y: U::from(self.y) }
    }

    /// The dot product with `other`. Neither product nor their sum may
    /// overflow.
    pub fn dot(self, other: Vector<T>) -> (product: T) where T: Mul<Output = T> + Add<Output = T>
        requires
            T::obeys_mul_spec(),
            self.x.mul_req(other.x),
            self.y.mul_req(other.y),
            self.x.mul_spec(other.x).add_req(self.y.mul_spec(other.y)),
        ensures
            T::obeys_add_spec() ==> product == self.spec_dot(other),
    {
        self.x * other.x + self.y * other.y
    }

    /// The dot product of the vector with itself.
    pub fn length_squared(self) -> (square: T) where T: Copy + Mul<Output = T> + Add<Output = T>
        requires
            T::obeys_mul_spec(),
            self.x.mul_req(self.x),
            self.y.mul_req(self.y),
            self.x.mul_spec(self.x).add_req(self.y.mul_spec(self.y)),
        ensures
            T::obeys_add_spec() ==> square == self.spec_dot(self),
    {
        self.dot(self)
    }

    /// The perpendicular dot product with `other`: `x * other.y - y *
    /// other.x`. Neither product nor their difference may overflow.
    pub fn perp_dot(self, other: Vector<T>) -> (product: T) where
        T: Mul<Output = T> + Sub<Output = T>,

        requires
            T::obeys_mul_spec(),
            self.x.mul_req(other.y),
            self.y.mul_req(other.x),
            self.x.mul_spec(other.y).sub_req(self.y.mul_spec(other.x)),
        ensures
            T::obeys_sub_spec() ==> product == self.spec_perp_dot(other),
    {
        self.x * other.y - self.y * other.x
    }
}

impl<T> Add<Vector<T>> for Vector<T> where T: Add<Output = T> {
    type Output = Vector<T>;

    /// The sum, coordinate by coordinate.
    fn add(self, rhs: Vector<T>) -> (sum: Vector<T>) {
        Vector { x: self.x + rhs.x, y: self.y + rhs.y }
    }
}

impl<T> AddSpecImpl<Vector<T>> for Vector<T> where T: Add<Output = T> {
    open spec fn obeys_add_spec() -> bool {
        T::obeys_add_spec()
    }

    open spec fn add_req(self, rhs: Vector<T>) -> bool {
        self.x.add_req(rhs.x) && self.y.add_req(rhs.y)
    }

    open spec fn add_spec(self, rhs: Vector<T>) -> Vector<T> {
        Vector { x: self.x.add_spec(rhs.x), y: self.y.add_spec(rhs.y) }
    }
}

impl<T> Sub<Vector<T>> for Vector<T> where T: Sub<Output = T> {
    type Output = Vector<T>;

    /// The difference, coordinate by coordinate.
    fn sub(self, rhs: Vector<T>) -> (difference: Vector<T>) {
        Vector { x: self.x - rhs.x, y: self.y - rhs.y }
    }
}

impl<T> SubSpecImpl<Vector<T>> for Vector<T> where T: Sub<Output = T> {
    open spec fn obeys_sub_spec() -> bool {
        T::obeys_sub_spec()
    }

    open spec fn sub_req(self, rhs: Vector<T>) -> bool {
        self.x.sub_req(rhs.x) && self.y.sub_req(rhs.y)
    }

    open spec fn sub_spec(self, rhs: Vector<T>) -> Vector<T> {
        Vector { x: self.x.sub_spec(rhs.x), y: self.y.sub_spec(rhs.y) }
    }
}

impl<T> Neg for Vector<T> where T: Neg<Output = T> {
    type Output = Vector<T>;

    /// The opposite vector.
    fn neg(self) -> (opposite: Vector<T>) {
        Vector { x: self.x.neg(), y: self.y.neg() }
    }
}

impl<T> NegSpecImpl for Vector<T> where T: Neg<Output = T> {
    open spec fn obeys_neg_spec() -> bool {
        T::obeys_neg_spec()
    }

    open spec fn neg_req(self) -> bool {
        self.x.neg_req() && self.y.neg_req()
    }

    open spec fn neg_spec(self) -> Vector<T> {
        Vector { x: self.x.neg_spec(), y: self.y.neg_spec() }
    }
}

impl<T> From<(T, T)> for Vector<T> {
    /// The vector with the coordinates of the pair.
    fn from(tuple: (T, T)) -> (v: Self) {
        Vector { x: tuple.0, y: tuple.1 }
    }
}

impl<T> FromSpecImpl<(T, T)> for Vector<T> {
    open spec fn obeys_from_spec() -> bool {
        true
    }

    open spec fn from_spec(tuple: (T, T)) -> Self {
        Vector { x: tuple.0, y: tuple.1 }
    }
}

impl<T> From<Vector<T>> for (T, T) {
    /// The pair of the vector's coordinates.
    fn from(vector: Vector<T>) -> (tuple: Self) {
        (vector.x, vector.y)
    }
}

impl<T> FromSpecImpl<Vector<T>> for (T, T) {
    open spec fn obeys_from_spec() -> bool {
        true
    }

    open spec fn from_spec(vector: Vector<T>) -> Self {
        (vector.x, vector.y)
    }
}

impl<T> Mul<T> for Vector<T> where T: Mul<Output = T> + Copy {
    type Output = Vector<T>;

    /// The vector with each coordinate multiplied by `rhs`.
    fn mul(self, rhs: T) -> (scaled: Vector<T>) {
        Vector { x: self.x * rhs, y: self.y * rhs }
    }
}

impl<T> MulSpecImpl<T> for Vector<T> where T: Mul<Output = T> + Copy {
    open spec fn obeys_mul_spec() -> bool {
        T::obeys_mul_spec()
    }

    open spec fn mul_req(self, rhs: T) -> bool {
        self.x.mul_req(rhs) && self.y.mul_req(rhs)
    }

    open spec fn mul_spec(self, rhs: T) -> Vector<T> {
        Vector { x: self.x.mul_spec(rhs), y: self.y.mul_spec(rhs) }
    }
}

impl<T> Div<T> for Vector<T> where T: Div<Output = T> + Copy {
    type Output = Vector<T>;

    /// The vector with each coordinate divided by `rhs`.
    fn div(self, rhs: T) -> (scaled: Vector<T>) {
        Vector { x: self.x / rhs, y: self.y / rhs }
    }
}

impl<T> DivSpecImpl<T> for Vector<T> where T: Div<Output = T> + Copy {
    open spec fn obeys_div_spec() -> bool {
        T::obeys_div_spec()
    }

    open spec fn div_req(self, rhs: T) -> bool {
        self.x.div_req(rhs) && self.y.div_req(rhs)
    }

    open spec fn div_spec(self, rhs: T) -> Vector<T> {
        Vector { x: self.x.div_spec(rhs), y: self.y.div_spec(rhs) }
    }
}

impl<T> Mul<Vector<T>> for Vector<T> where T: Mul<Output = T> + Add<Output = T> {
    type Output = T;

    /// The dot product.
    fn mul(self, rhs: Vector<T>) -> (product: T) {
        self.x * rhs.x + self.y * rhs.y
    }
}

impl<T> MulSpecImpl<Vector<T>> for Vector<T> where T: Mul<Output = T> + Add<Output = T> {
    open spec fn obeys_mul_spec() -> bool {
        T::obeys_mul_spec() && T::obeys_add_spec()
    }

    open spec fn mul_req(self, rhs: Vector<T>) -> bool {
        &&& T::obeys_mul_spec()
        &&& self.x.mul_req(rhs.x)
        &&& self.y.mul_req(rhs.y)
        &&& self.x.mul_spec(rhs.x).add_req(self.y.mul_spec(rhs.y))
    }

    open spec fn mul_spec(self, rhs: Vector<T>) -> T {
        self.spec_dot(rhs)
    }
}

impl<T: Copy> From<[T; 2]> for Vector<T> {
    /// The vector with the coordinates of the array.
    fn from(array: [T; 2]) -> (v: Self) {
        Vector { x: array[0], y: array[1] }
    }
}

impl<T: Copy> FromSpecImpl<[T; 2]> for Vector<T> {
    open spec fn obeys_from_spec() -> bool {
        true
    }

    open spec fn from_spec(array: [T; 2]) -> Self {
        Vector { x: array[0], y: array[1] }
    }
}

impl<T> From<Vector<T>> for [T; 2] {
    /// The array of the vector's coordinates.
    fn from(vector: Vector<T>) -> (array: Self) {
        [vector.x, vector.y]
    }
}

impl<T> FromSpecImpl<Vector<T>> for [T; 2] {
    open spec fn obeys_from_spec() -> bool {
        true
    }

    open spec fn from_spec(vector: Vector<T>) -> Self {
        [vector.x, vector.y]
    }
}

impl<T> AddAssign<Vector<T>> for Vector<T> where T: Add<Output = T> + Copy {
    /// Adds `rhs`, coordinate by coordinate.
    fn add_assign(&mut self, rhs: Vector<T>)
        requires
            old(self).x.add_req(rhs.x),
            old(self).y.add_req(rhs.y),
        ensures
            T::obeys_add_spec() ==> final(self).x == old(self).x.add_spec(rhs.x) && final(self).y
                == old(self).y.add_spec(rhs.y),
    {
        *self = Vector { x: self.x + rhs.x, y: self.y + rhs.y };
    }
}

impl<T> SubAssign<Vector<T>> for Vector<T> where T: Sub<Output = T> + Copy {
    /// Subtracts `rhs`, coordinate by coordinate.
    fn sub_assign(&mut self, rhs: Vector<T>)
        requires
            old(self).x.sub_req(rhs.x),
            old(self).y.sub_req(rhs.y),
        ensures
            T::obeys_sub_spec() ==> final(self).x == old(self).x.sub_spec(rhs.x) && final(self).y
                == old(self).y.sub_spec(rhs.y),
    {
        *self = Vector { x: self.x - rhs.x, y: self.y - rhs.y };
    }
}

impl<T> MulAssign<T> for Vector<T> where T: Mul<Output = T> + Copy {
    /// Multiplies each coordinate by `rhs`.
    fn mul_assign(&mut self, rhs: T)
        requires
            old(self).x.mul_req(rhs),
            old(self).y.mul_req(rhs),
        ensures
            T::obeys_mul_spec() ==> final(self).x == old(self).x.mul_spec(rhs) && final(self).y
                == old(self).y.mul_spec(rhs),
    {
        *self = Vector { x: self.x * rhs, y: self.y * rhs };
    }
}

impl<T> DivAssign<T> for Vector<T> where T: Div<Output = T> + Copy {
    /// Divides each coordinate by `rhs`.
    fn div_assign(&mut self, rhs: T)
        requires
            old(self).x.div_req(rhs),
            old(self).y.div_req(rhs),
        ensures
            T::obeys_div_spec() ==> final(self).x == old(self).x.div_spec(rhs) && final(self).y
                == old(self).y.div_spec(rhs),
    {
        *self = Vector { x: self.x / rhs, y: self.y / rhs };
    }
}

impl Vector<i32> {
    /// The origin.
    pub fn zero() -> (v: Self)
        ensures
            v == (Vector { x: 0i32, y: 0i32 }),
    {
        Vector { x: 0, y: 0 }
    }

    /// The vector of two ones.
    pub fn one() -> (v: Self)
        ensures
            v == (Vector { x: 1i32, y: 1i32 }),
    {
        Vector { x: 1, y: 1 }
    }

    /// The unit vector along the first axis.
    pub fn i() -> (v: Self)
        ensures
            v == (Vector { x: 1i32, y: 0i32 }),
    {
        Vector { x: 1, y: 0 }
    }

    /// The unit vector along the second axis.
    pub fn j() -> (v: Self)
        ensures
            v == (Vector { x: 0i32, y: 1i32 }),
    {
        Vector { x: 0, y: 1 }
    }
}

impl Vector<Scalar> {
    /// Whether the two vectors are the same place: each coordinate of one is
    /// the same number as that coordinate of the other.
    pub open spec fn coincident(self, other: Vector<Scalar>) -> bool {
        self.x.same_number(other.x) && self.y.same_number(other.y)
    }

    /// Whether the two vectors are the same place.
    #[verifier::when_used_as_spec(coincident)]
    pub fn coincides(self, other: Vector<Scalar>) -> (same: bool)
        ensures
            same == self.coincident(other),
    {
        self.x.equals(other.x) && self.y.equals(other.y)
    }

    /// Each coordinate rounded to the nearest whole number, a half away
    /// from zero.
    pub fn round(self) -> (v: Vector<i32>)
        ensures
            v.x == self.x.rounded(),
            v.y == self.y.rounded(),
    {
        Vector { x: self.x.round(), y: self.y.round() }
    }

    /// Each coordinate rounded to the nearest whole number, a half above
    /// zero toward zero.
    pub fn round_half_down(self) -> (v: Vector<i32>)
        ensures
            v.x == self.x.rounded_half_down(),
            v.y == self.y.rounded_half_down(),
    {
        Vector { x: self.x.round_half_down(), y: self.y.round_half_down() }
    }

    /// Each coordinate rounded to the nearest whole number, a half below
    /// zero toward zero.
    pub fn round_half_up(self) -> (v: Vector<i32>)
        ensures
            v.x == self.x.rounded_half_up(),
            v.y == self.y.rounded_half_up(),
    {
        Vector { x: self.x.round_half_up(), y: self.y.round_half_up() }
    }

    /// Each coordinate rounded toward zero.
    pub fn trunc(self) -> (v: Vector<i32>)
        ensures
            v.x == self.x.truncated(),
            v.y == self.y.truncated(),
    {
        Vector { x: self.x.trunc(), y: self.y.trunc() }
    }

    /// Each coordinate rounded down.
    pub fn floor(self) -> (v: Vector<i32>)
        ensures
            v.x == self.x.floored(),
            v.y == self.y.floored(),
    {
        Vector { x: self.x.floor(), y: self.y.floor() }
    }

    /// Each coordinate rounded up.
    pub fn ceil(self) -> (v: Vector<i32>)
        ensures
            v.x == self.x.ceiled(),
            v.y == self.y.ceiled(),
    {
        Vector { x: self.x.ceil(), y: self.y.ceil() }
    }
}

} // verus!
