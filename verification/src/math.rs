//! Small vector types: pairs, integer triples and fixed-point triples.

use vstd::prelude::*;
use vstd::std_specs::ops::{AddSpec, MulSpec, SubSpec};
use crate::fixed::{floor_div, is_isqrt, isqrt, isqrt_u128, quotient, quotient_raw, trunc_div, ONE};

verus! {

/// A pair of coordinates.
#[derive(Debug, Clone, Copy)]
pub struct Vec2<T> {
    pub x: T,
    pub y: T,
}

/// A pair of fixed-point numbers: a texture coordinate.
pub type Vec2f = Vec2<i32>;

impl<T> Vec2<T> {
    /// The pair `(x, y)`.
    pub fn new(x: T, y: T) -> (v: Vec2<T>)
        ensures
            v.x == x,
            v.y == y,
    {
        Vec2 { x, y }
    }
}

impl<T: core::ops::Mul<T, Output = T> + Copy> core::ops::Mul<T> for Vec2<T> {
    type Output = Vec2<T>;

    /// Both coordinates times `rhs`.
    fn mul(self, rhs: T) -> (v: Vec2<T>) {
        Vec2 { x: self.x * rhs, y: self.y * rhs }
    }
}

impl<T: core::ops::Mul<T, Output = T> + Copy> vstd::std_specs::ops::MulSpecImpl<T> for Vec2<T> {
    open spec fn obeys_mul_spec() -> bool {
        <T as MulSpec<T>>::obeys_mul_spec()
    }

    open spec fn mul_req(self, rhs: T) -> bool {
        self.x.mul_req(rhs) && self.y.mul_req(rhs)
    }

    open spec fn mul_spec(self, rhs: T) -> Vec2<T> {
        Vec2 { x: self.x.mul_spec(rhs), y: self.y.mul_spec(rhs) }
    }
}

impl<T: core::ops::Add<T, Output = T>> core::ops::Add<Vec2<T>> for Vec2<T> {
    type Output = Vec2<T>;

    /// The sum, coordinate by coordinate.
    fn add(self, rhs: Vec2<T>) -> (v: Vec2<T>) {
        Vec2 { x: self.x + rhs.x, y: self.y + rhs.y }
    }
}

impl<T: core::ops::Add<T, Output = T>> vstd::std_specs::ops::AddSpecImpl<Vec2<T>> for Vec2<T> {
    open spec fn obeys_add_spec() -> bool {
        <T as AddSpec<T>>::obeys_add_spec()
    }

    open spec fn add_req(self, rhs: Vec2<T>) -> bool {
        self.x.add_req(rhs.x) && self.y.add_req(rhs.y)
    }

    open spec fn add_spec(self, rhs: Vec2<T>) -> Vec2<T> {
        Vec2 { x: self.x.add_spec(rhs.x), y: self.y.add_spec(rhs.y) }
    }
}

impl<T: core::ops::Sub<T, Output = T>> core::ops::Sub<Vec2<T>> for Vec2<T> {
    type Output = Vec2<T>;

    /// The difference, coordinate by coordinate.
    fn sub(self, rhs: Vec2<T>) -> (v: Vec2<T>) {
        Vec2 { x: self.x - rhs.x, y: self.y - rhs.y }
    }
}

impl<T: core::ops::Sub<T, Output = T>> vstd::std_specs::ops::SubSpecImpl<Vec2<T>> for Vec2<T> {
    open spec fn obeys_sub_spec() -> bool {
        <T as SubSpec<T>>::obeys_sub_spec()
    }

    open spec fn sub_req(self, rhs: Vec2<T>) -> bool {
        self.x.sub_req(rhs.x) && self.y.sub_req(rhs.y)
    }

    open spec fn sub_spec(self, rhs: Vec2<T>) -> Vec2<T> {
        Vec2 { x: self.x.sub_spec(rhs.x), y: self.y.sub_spec(rhs.y) }
    }
}

/// A triple of whole numbers: a position on the screen, with its depth.
#[derive(Debug, Clone, Copy, PartialEq, Eq, Structural)]
pub struct Vec3i {
    pub x: i32,
    pub y: i32,
    pub z: i32,
}

impl Vec3i {
    /// The triple `(x, y, z)`.
    pub fn new(x: i32, y: i32, z: i32) -> (v: Vec3i)
        ensures
            v == (Vec3i { x, y, z }),
    {
        Vec3i { x, y, z }
    }
}

/// The largest magnitude of a raw coordinate that positions and normals of
/// a model may have, just under 16384 units: the difference of two such
/// coordinates is again a raw value.
pub const COORD_MAX: i32 = 0x3fff_ffff;

/// A triple of fixed-point numbers: a position or a direction in space.
#[derive(Debug, Clone, Copy, PartialEq, Eq, Structural)]
pub struct Vec3f {
    pub x: i32,
    pub y: i32,
    pub z: i32,
}

/// The length of the vector `(x, y, z)`, rounded down.
pub open spec fn length(x: int, y: int, z: int) -> int {
    isqrt(x * x + y * y + z * z)
}

/// One component of a unit vector: `c / len` in fixed point, rounded toward
/// zero; zero for a vector without length.
pub open spec fn unit_part(c: int, len: int) -> int {
    if len > 0 {
        trunc_div(c * (ONE as int), len)
    } else {
        0
    }
}

/// The fixed-point unit vector in the direction of `(x, y, z)`; the zero
/// vector for a direction without length.
pub open spec fn unit(x: int, y: int, z: int) -> Vec3f {
    Vec3f {
        x: unit_part(x, length(x, y, z)) as i32,
        y: unit_part(y, length(x, y, z)) as i32,
        z: unit_part(z, length(x, y, z)) as i32,
    }
}

/// A component of a vector is no longer than the vector, so a component of
/// a unit vector lies between minus one and one.
pub proof fn lemma_unit_part_bounds(c: int, rest: int, len: int)
    requires
        0 <= rest,
        is_isqrt(c * c + rest, len),
    ensures
        -(ONE as int) <= unit_part(c, len) <= ONE as int,
{
    if len > 0 {
        let a = if c >= 0 {
            c
        } else {
            -c
        };
        assert(a * a == c * c) by (nonlinear_arith)
            requires
                a == c || a == -c,
        ;
        assert(a <= len) by (nonlinear_arith)
            requires
                0 <= a,
                0 <= len,
                a * a < (len + 1) * (len + 1),
        ;
        assert(0 <= (a * 65536) / len <= 65536) by (nonlinear_arith)
            requires
                0 <= a <= len,
                0 < len,
        ;
    }
}

/// The unit vector in the direction of `(x, y, z)`.
fn unit_of(x: i128, y: i128, z: i128) -> (v: Vec3f)
    requires
        -0x8000_0000_0000_0000 <= x <= 0x8000_0000_0000_0000,
        -0x8000_0000_0000_0000 <= y <= 0x8000_0000_0000_0000,
        -0x8000_0000_0000_0000 <= z <= 0x8000_0000_0000_0000,
    ensures
        v == unit(x as int, y as int, z as int),
        -ONE <= v.x <= ONE,
        -ONE <= v.y <= ONE,
        -ONE <= v.z <= ONE,
{
    assert(0 <= x * x <= 0x4000_0000_0000_0000_0000_0000_0000_0000) by (nonlinear_arith)
        requires
            -0x8000_0000_0000_0000 <= x <= 0x8000_0000_0000_0000,
    ;
    assert(0 <= y * y <= 0x4000_0000_0000_0000_0000_0000_0000_0000) by (nonlinear_arith)
        requires
            -0x8000_0000_0000_0000 <= y <= 0x8000_0000_0000_0000,
    ;
    assert(0 <= z * z <= 0x4000_0000_0000_0000_0000_0000_0000_0000) by (nonlinear_arith)
        requires
            -0x8000_0000_0000_0000 <= z <= 0x8000_0000_0000_0000,
    ;
    let xx: u128 = (x * x) as u128;
    let yy: u128 = (y * y) as u128;
    let zz: u128 = (z * z) as u128;
    let len: i128 = isqrt_u128(xx + yy + zz) as i128;
    proof {
        lemma_unit_part_bounds(x as int, y * y + z * z, len as int);
        lemma_unit_part_bounds(y as int, x * x + z * z, len as int);
        lemma_unit_part_bounds(z as int, x * x + y * y, len as int);
    }
    if len == 0 {
        Vec3f { x: 0, y: 0, z: 0 }
    } else {
        Vec3f {
            x: ((x * 65536) / len) as i32,
            y: ((y * 65536) / len) as i32,
            z: ((z * 65536) / len) as i32,
        }
    }
}

impl Vec3f {
    /// Whether every component is at most `COORD_MAX` in magnitude.
    pub open spec fn in_range(self) -> bool {
        &&& -COORD_MAX <= self.x <= COORD_MAX
        &&& -COORD_MAX <= self.y <= COORD_MAX
        &&& -COORD_MAX <= self.z <= COORD_MAX
    }

    /// The difference of two vectors, component by component.
    pub open spec fn minus(self, rhs: Vec3f) -> Vec3f {
        Vec3f {
            x: (self.x - rhs.x) as i32,
            y: (self.y - rhs.y) as i32,
            z: (self.z - rhs.z) as i32,
        }
    }

    /// The sum of two vectors, component by component.
    pub open spec fn plus(self, rhs: Vec3f) -> Vec3f {
        Vec3f {
            x: (self.x + rhs.x) as i32,
            y: (self.y + rhs.y) as i32,
            z: (self.z + rhs.z) as i32,
        }
    }

    /// This vector times the fixed-point factor `f`, rounded down.
    pub open spec fn times(self, f: int) -> Vec3f {
        Vec3f {
            x: ((self.x * f) / (ONE as int)) as i32,
            y: ((self.y * f) / (ONE as int)) as i32,
            z: ((self.z * f) / (ONE as int)) as i32,
        }
    }

    /// This vector divided by the fixed-point number `f`, rounded toward zero.
    pub open spec fn over(self, f: int) -> Vec3f {
        Vec3f {
            x: quotient(self.x * (ONE as int), f) as i32,
            y: quotient(self.y * (ONE as int), f) as i32,
            z: quotient(self.z * (ONE as int), f) as i32,
        }
    }

    /// The fixed-point cross product, every component rounded down.
    pub open spec fn cross(self, rhs: Vec3f) -> Vec3f {
        Vec3f {
            x: (self.cross_x(rhs) / (ONE as int)) as i32,
            y: (self.cross_y(rhs) / (ONE as int)) as i32,
            z: (self.cross_z(rhs) / (ONE as int)) as i32,
        }
    }

    /// The first component of the cross product, in squared raw units.
    pub open spec fn cross_x(self, rhs: Vec3f) -> int {
        self.y * rhs.z - self.z * rhs.y
    }

    /// The second component of the cross product, in squared raw units.
    pub open spec fn cross_y(self, rhs: Vec3f) -> int {
        self.z * rhs.x - self.x * rhs.z
    }

    /// The third component of the cross product, in squared raw units.
    pub open spec fn cross_z(self, rhs: Vec3f) -> int {
        self.x * rhs.y - self.y * rhs.x
    }

    /// The fixed-point dot product, rounded down.
    pub open spec fn dot(self, rhs: Vec3f) -> int {
        (self.x * rhs.x + self.y * rhs.y + self.z * rhs.z) / (ONE as int)
    }

    /// The triple of the raw values `(x, y, z)`.
    pub fn new(x: i32, y: i32, z: i32) -> (v: Vec3f)
        ensures
            v == (Vec3f { x, y, z }),
    {
        Vec3f { x, y, z }
    }

    /// Scales this vector to length one, in place, and returns it. A vector
    /// without length stays the zero vector.
    pub fn normalize(&mut self) -> (v: Vec3f)
        ensures
            *final(self) == unit(old(self).x as int, old(self).y as int, old(self).z as int),
            v == *final(self),
            -ONE <= v.x <= ONE,
            -ONE <= v.y <= ONE,
            -ONE <= v.z <= ONE,
    {
        let v: Vec3f = unit_of(self.x as i128, self.y as i128, self.z as i128);
        self.x = v.x;
        self.y = v.y;
        self.z = v.z;
        *self
    }

    /// The unit vector along the cross product of this vector and `rhs`.
    ///
    /// The cross product itself has twice the fractional bits of its
    /// factors; it is normalized at full precision and only then rounded.
    pub fn cross_unit(self, rhs: Vec3f) -> (v: Vec3f)
        ensures
            v == unit(self.cross_x(rhs), self.cross_y(rhs), self.cross_z(rhs)),
            -ONE <= v.x <= ONE,
            -ONE <= v.y <= ONE,
            -ONE <= v.z <= ONE,
    {
        let cx: i128 = wide_product(self.y, rhs.z) - wide_product(self.z, rhs.y);
        let cy: i128 = wide_product(self.z, rhs.x) - wide_product(self.x, rhs.z);
        let cz: i128 = wide_product(self.x, rhs.y) - wide_product(self.y, rhs.x);
        unit_of(cx, cy, cz)
    }

}

/// The product of two raw values, without rounding.
fn wide_product(a: i32, b: i32) -> (p: i128)
    ensures
        p == a * b,
        -0x4000_0000_0000_0000 <= p <= 0x4000_0000_0000_0000,
{
    assert(-0x4000_0000_0000_0000 <= a * b <= 0x4000_0000_0000_0000) by (nonlinear_arith)
        requires
            -0x8000_0000 <= a <= 0x7fff_ffff,
            -0x8000_0000 <= b <= 0x7fff_ffff,
    ;
    (a as i128) * (b as i128)
}

impl core::ops::Add for Vec3f {
    type Output = Vec3f;

    /// The sum, component by component.
    fn add(self, rhs: Vec3f) -> (v: Vec3f) {
        Vec3f { x: self.x + rhs.x, y: self.y + rhs.y, z: self.z + rhs.z }
    }
}

impl vstd::std_specs::ops::AddSpecImpl for Vec3f {
    open spec fn obeys_add_spec() -> bool {
        true
    }

    open spec fn add_req(self, rhs: Vec3f) -> bool {
        &&& i32::MIN <= self.x + rhs.x <= i32::MAX
        &&& i32::MIN <= self.y + rhs.y <= i32::MAX
        &&& i32::MIN <= self.z + rhs.z <= i32::MAX
    }

    open spec fn add_spec(self, rhs: Vec3f) -> Vec3f {
        self.plus(rhs)
    }
}

impl core::ops::Sub for Vec3f {
    type Output = Vec3f;

    /// The difference, component by component.
    fn sub(self, rhs: Vec3f) -> (v: Vec3f) {
        Vec3f { x: self.x - rhs.x, y: self.y - rhs.y, z: self.z - rhs.z }
    }
}

impl vstd::std_specs::ops::SubSpecImpl for Vec3f {
    open spec fn obeys_sub_spec() -> bool {
        true
    }

    open spec fn sub_req(self, rhs: Vec3f) -> bool {
        &&& i32::MIN <= self.x - rhs.x <= i32::MAX
        &&& i32::MIN <= self.y - rhs.y <= i32::MAX
        &&& i32::MIN <= self.z - rhs.z <= i32::MAX
    }

    open spec fn sub_spec(self, rhs: Vec3f) -> Vec3f {
        self.minus(rhs)
    }
}

impl core::ops::Mul<i32> for Vec3f {
    type Output = Vec3f;

    /// Every component times the fixed-point factor `f`, rounded down.
    fn mul(self, f: i32) -> (v: Vec3f) {
        Vec3f {
            x: floor_div(wide_product(self.x, f), 65536) as i32,
            y: floor_div(wide_product(self.y, f), 65536) as i32,
            z: floor_div(wide_product(self.z, f), 65536) as i32,
        }
    }
}

impl vstd::std_specs::ops::MulSpecImpl<i32> for Vec3f {
    open spec fn obeys_mul_spec() -> bool {
        true
    }

    open spec fn mul_req(self, f: i32) -> bool {
        &&& i32::MIN <= (self.x * f) / (ONE as int) <= i32::MAX
        &&& i32::MIN <= (self.y * f) / (ONE as int) <= i32::MAX
        &&& i32::MIN <= (self.z * f) / (ONE as int) <= i32::MAX
    }

    open spec fn mul_spec(self, f: i32) -> Vec3f {
        self.times(f as int)
    }
}

impl core::ops::Div<i32> for Vec3f {
    type Output = Vec3f;

    /// Every component divided by the fixed-point number `f`, rounded
    /// toward zero.
    fn div(self, f: i32) -> (v: Vec3f) {
        Vec3f {
            x: quotient_raw((self.x as i64) * 65536, f as i64) as i32,
            y: quotient_raw((self.y as i64) * 65536, f as i64) as i32,
            z: quotient_raw((self.z as i64) * 65536, f as i64) as i32,
        }
    }
}

impl vstd::std_specs::ops::DivSpecImpl<i32> for Vec3f {
    open spec fn obeys_div_spec() -> bool {
        true
    }

    open spec fn div_req(self, f: i32) -> bool {
        &&& f != 0
        &&& i32::MIN <= quotient(self.x * (ONE as int), f as int) <= i32::MAX
        &&& i32::MIN <= quotient(self.y * (ONE as int), f as int) <= i32::MAX
        &&& i32::MIN <= quotient(self.z * (ONE as int), f as int) <= i32::MAX
    }

    open spec fn div_spec(self, f: i32) -> Vec3f {
        self.over(f as int)
    }
}

impl core::ops::Mul<Vec3f> for Vec3f {
    type Output = i64;

    /// The fixed-point dot product, rounded down.
    fn mul(self, rhs: Vec3f) -> (d: i64) {
        let sum: i128 = wide_product(self.x, rhs.x) + wide_product(self.y, rhs.y) + wide_product(
            self.z,
            rhs.z,
        );
        floor_div(sum, 65536) as i64
    }
}

impl vstd::std_specs::ops::MulSpecImpl<Vec3f> for Vec3f {
    open spec fn obeys_mul_spec() -> bool {
        true
    }

    open spec fn mul_req(self, rhs: Vec3f) -> bool {
        true
    }

    open spec fn mul_spec(self, rhs: Vec3f) -> i64 {
        self.dot(rhs) as i64
    }
}

impl core::ops::BitXor for Vec3f {
    type Output = Vec3f;

    /// The fixed-point cross product, every component rounded down.
    fn bitxor(self, rhs: Vec3f) -> (v: Vec3f) {
        Vec3f {
            x: floor_div(
                wide_product(self.y, rhs.z) - wide_product(self.z, rhs.y),
                65536,
            ) as i32,
            y: floor_div(
                wide_product(self.z, rhs.x) - wide_product(self.x, rhs.z),
                65536,
            ) as i32,
            z: floor_div(
                wide_product(self.x, rhs.y) - wide_product(self.y, rhs.x),
                65536,
            ) as i32,
        }
    }
}

impl vstd::std_specs::ops::BitXorSpecImpl for Vec3f {
    open spec fn obeys_bitxor_spec() -> bool {
        true
    }

    open spec fn bitxor_req(self, rhs: Vec3f) -> bool {
        &&& i32::MIN <= self.cross_x(rhs) / (ONE as int) <= i32::MAX
        &&& i32::MIN <= self.cross_y(rhs) / (ONE as int) <= i32::MAX
        &&& i32::MIN <= self.cross_z(rhs) / (ONE as int) <= i32::MAX
    }

    open spec fn bitxor_spec(self, rhs: Vec3f) -> Vec3f {
        self.cross(rhs)
    }
}

} // verus!
