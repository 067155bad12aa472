//! Points, vectors and scalars, each number of them in fixed point.
//!
//! The three types are kept apart so that only meaningful combinations can be
//! written: a point moves by a vector, two points differ by a vector, vectors
//! add up, and only a scalar stretches a vector.
//!
//! A coordinate counts units of `fixed::UNIT`, a scalar units of
//! `fixed::SCALAR_UNIT`. Every operation states its result over `Coords`, the
//! coordinates as unbounded integers, and asks of its caller only that the
//! result can be held in 64 bits; the methods whose names begin with `can_`
//! tell whether it can. Two operations can fail otherwise: dividing a vector
//! by the scalar zero and normalizing the zero vector both give
//! `Err(DivisionByZero)`, and never a made-up vector.
//!
//! Normalizing rounds each coordinate of the exact unit vector once, so the
//! result has length one however short or long the vector is.
//!
//! `==` compares within the tolerances of `fixed::close`, one thousandth or
//! one part in a million, coordinate by coordinate; `<` on scalars compares
//! the values as they are.

use crate::fixed::{
    close, difference_fits, divide, in_range, is_length, lemma_length_is, lemma_length_of,
    lemma_root, lemma_share, length, length_of, magnitude, multiply, nearly_equal, product,
    product_fits, quotient, quotient_fits, root, scaled_sum_fits, share, sum_fits, truncated,
    unit_share, wide_product, ABSOLUTE_TOLERANCE, AREA_UNIT, GRAIN, SCALAR_TOLERANCE,
    SCALAR_UNIT, UNIT,
};
use core::cmp::Ordering;
use vstd::prelude::*;

verus! {

/// Three coordinates as unbounded integers: what a point or a vector stands
/// for, in units of a coordinate.
pub struct Coords {
    pub x: int,
    pub y: int,
    pub z: int,
}

impl Coords {
    /// Whether every coordinate can be held in an `i64`.
    pub open spec fn representable(self) -> bool {
        in_range(self.x) && in_range(self.y) && in_range(self.z)
    }

    /// The coordinatewise sum.
    pub open spec fn plus(self, other: Coords) -> Coords {
        Coords { x: self.x + other.x, y: self.y + other.y, z: self.z + other.z }
    }

    /// The coordinatewise difference.
    pub open spec fn minus(self, other: Coords) -> Coords {
        Coords { x: self.x - other.x, y: self.y - other.y, z: self.z - other.z }
    }

    /// Every coordinate with its sign flipped.
    pub open spec fn negated(self) -> Coords {
        Coords { x: -self.x, y: -self.y, z: -self.z }
    }

    /// Every coordinate multiplied by the fixed-point number `s`.
    pub open spec fn scaled(self, s: int) -> Coords {
        Coords { x: product(self.x, s), y: product(self.y, s), z: product(self.z, s) }
    }

    /// Every coordinate divided by the fixed-point number `s`, for `s != 0`.
    pub open spec fn divided(self, s: int) -> Coords {
        Coords { x: quotient(self.x, s), y: quotient(self.y, s), z: quotient(self.z, s) }
    }

    /// The inner product as a scalar, rounded once.
    pub open spec fn dot(self, other: Coords) -> int {
        truncated(self.x * other.x + self.y * other.y + self.z * other.z, AREA_UNIT as int)
    }

    /// The right-handed cross product, each coordinate rounded once.
    pub open spec fn cross(self, other: Coords) -> Coords {
        Coords {
            x: truncated(self.y * other.z - self.z * other.y, UNIT as int),
            y: truncated(self.z * other.x - self.x * other.z, UNIT as int),
            z: truncated(self.x * other.y - self.y * other.x, UNIT as int),
        }
    }

    /// The sum of the squares of the coordinates.
    pub open spec fn norm_squared(self) -> int {
        self.x * self.x + self.y * self.y + self.z * self.z
    }

    /// The Euclidean length as a scalar, rounded up.
    pub open spec fn length(self) -> int {
        length_of(self.norm_squared())
    }

    /// The vector of length one that points the same way, for a vector other
    /// than zero: each coordinate divided by the exact length, rounded once.
    pub open spec fn normalized(self) -> Coords {
        Coords {
            x: share(self.x, self.norm_squared()),
            y: share(self.y, self.norm_squared()),
            z: share(self.z, self.norm_squared()),
        }
    }

    /// Whether all three coordinates are zero.
    pub open spec fn is_zero(self) -> bool {
        self.x == 0 && self.y == 0 && self.z == 0
    }

    /// Whether each coordinate is equal to the other's within the tolerances.
    pub open spec fn close_to(self, other: Coords) -> bool {
        &&& close(self.x, other.x, ABSOLUTE_TOLERANCE as int)
        &&& close(self.y, other.y, ABSOLUTE_TOLERANCE as int)
        &&& close(self.z, other.z, ABSOLUTE_TOLERANCE as int)
    }
}

/// A position in space.
#[derive(Clone, Copy, Debug)]
pub struct Point {
    pub x: i64,
    pub y: i64,
    pub z: i64,
}

/// A displacement, a velocity or a force.
#[derive(Clone, Copy, Debug)]
pub struct Vector {
    pub x: i64,
    pub y: i64,
    pub z: i64,
}

/// A multiplier without a dimension.
#[derive(Clone, Copy, Debug)]
pub struct Scalar(pub i64);

/// The failure of a division whose divisor is zero.
#[derive(Clone, Copy, Debug, PartialEq, Eq, Structural)]
pub struct DivisionByZero;

impl View for Point {
    type V = Coords;

    open spec fn view(&self) -> Coords {
        Coords { x: self.x as int, y: self.y as int, z: self.z as int }
    }
}

impl View for Vector {
    type V = Coords;

    open spec fn view(&self) -> Coords {
        Coords { x: self.x as int, y: self.y as int, z: self.z as int }
    }
}

impl View for Scalar {
    type V = int;

    open spec fn view(&self) -> int {
        self.0 as int
    }
}

impl Point {
    /// The point with the given coordinates, each cut to 64 bits.
    pub open spec fn of(c: Coords) -> Point {
        Point { x: c.x as i64, y: c.y as i64, z: c.z as i64 }
    }

    /// Whether the displacement that leads from `rhs` to this point can be
    /// held.
    pub fn can_sub(&self, rhs: &Point) -> (fits: bool)
        ensures
            fits == self@.minus(rhs@).representable(),
    {
        difference_fits(self.x, rhs.x) && difference_fits(self.y, rhs.y) && difference_fits(
            self.z,
            rhs.z,
        )
    }

    /// Whether the point from which `by` leads to this one can be held.
    pub fn can_move_back(&self, by: &Vector) -> (fits: bool)
        ensures
            fits == self@.minus(by@).representable(),
    {
        difference_fits(self.x, by.x) && difference_fits(self.y, by.y) && difference_fits(
            self.z,
            by.z,
        )
    }

    /// Whether this point moved by `by` can be held.
    pub fn can_move(&self, by: &Vector) -> (fits: bool)
        ensures
            fits == self@.plus(by@).representable(),
    {
        sum_fits(self.x, by.x) && sum_fits(self.y, by.y) && sum_fits(self.z, by.z)
    }
}

impl Vector {
    /// The vector with the given coordinates, each cut to 64 bits.
    pub open spec fn of(c: Coords) -> Vector {
        Vector { x: c.x as i64, y: c.y as i64, z: c.z as i64 }
    }
}

impl Scalar {
    /// The scalar that stands for `value` units of a scalar.
    pub fn new(value: i64) -> (s: Scalar)
        ensures
            s@ == value,
    {
        Scalar(value)
    }
}

impl vstd::std_specs::ops::AddSpecImpl for Vector {
    open spec fn obeys_add_spec() -> bool {
        true
    }

    open spec fn add_req(self, rhs: Vector) -> bool {
        self@.plus(rhs@).representable()
    }

    open spec fn add_spec(self, rhs: Vector) -> Vector {
        Vector::of(self@.plus(rhs@))
    }
}

impl core::ops::Add for Vector {
    type Output = Vector;

    /// The sum of two vectors.
    fn add(self, rhs: Vector) -> (sum: Vector)
        ensures
            sum@ == self@.plus(rhs@),
    {
        Vector { x: self.x + rhs.x, y: self.y + rhs.y, z: self.z + rhs.z }
    }
}

impl<'a> vstd::std_specs::ops::AddSpecImpl<&'a Vector> for &'a Vector {
    open spec fn obeys_add_spec() -> bool {
        true
    }

    open spec fn add_req(self, rhs: &'a Vector) -> bool {
        self@.plus(rhs@).representable()
    }

    open spec fn add_spec(self, rhs: &'a Vector) -> Vector {
        Vector::of(self@.plus(rhs@))
    }
}

impl<'a> core::ops::Add<&'a Vector> for &'a Vector {
    type Output = Vector;

    /// The sum of two vectors, both borrowed.
    fn add(self, rhs: &'a Vector) -> (sum: Vector)
        ensures
            sum@ == self@.plus(rhs@),
    {
        Vector { x: self.x + rhs.x, y: self.y + rhs.y, z: self.z + rhs.z }
    }
}

impl<'a> vstd::std_specs::ops::AddSpecImpl<&'a Vector> for Vector {
    open spec fn obeys_add_spec() -> bool {
        true
    }

    open spec fn add_req(self, rhs: &'a Vector) -> bool {
        self@.plus(rhs@).representable()
    }

    open spec fn add_spec(self, rhs: &'a Vector) -> Vector {
        Vector::of(self@.plus(rhs@))
    }
}

impl<'a> core::ops::Add<&'a Vector> for Vector {
    type Output = Vector;

    /// The sum of two vectors, the second borrowed.
    fn add(self, rhs: &'a Vector) -> (sum: Vector)
        ensures
            sum@ == self@.plus(rhs@),
    {
        Vector { x: self.x + rhs.x, y: self.y + rhs.y, z: self.z + rhs.z }
    }
}

impl core::ops::AddAssign for Vector {
    /// Adds `rhs` to this vector in place.
    fn add_assign(&mut self, rhs: Vector)
        requires
            old(self)@.plus(rhs@).representable(),
        ensures
            final(self)@ == old(self)@.plus(rhs@),
    {
        self.x += rhs.x;
        self.y += rhs.y;
        self.z += rhs.z;
    }
}

impl vstd::std_specs::ops::AddSpecImpl<Vector> for Point {
    open spec fn obeys_add_spec() -> bool {
        true
    }

    open spec fn add_req(self, rhs: Vector) -> bool {
        self@.plus(rhs@).representable()
    }

    open spec fn add_spec(self, rhs: Vector) -> Point {
        Point::of(self@.plus(rhs@))
    }
}

impl core::ops::Add<Vector> for Point {
    type Output = Point;

    /// The point that lies `rhs` away from this one.
    fn add(self, rhs: Vector) -> (moved: Point)
        ensures
            moved@ == self@.plus(rhs@),
    {
        Point { x: self.x + rhs.x, y: self.y + rhs.y, z: self.z + rhs.z }
    }
}

impl core::ops::AddAssign<Vector> for Point {
    /// Moves this point by `rhs` in place.
    fn add_assign(&mut self, rhs: Vector)
        requires
            old(self)@.plus(rhs@).representable(),
        ensures
            final(self)@ == old(self)@.plus(rhs@),
    {
        self.x += rhs.x;
        self.y += rhs.y;
        self.z += rhs.z;
    }
}

impl vstd::std_specs::ops::SubSpecImpl for Point {
    open spec fn obeys_sub_spec() -> bool {
        true
    }

    open spec fn sub_req(self, rhs: Point) -> bool {
        self@.minus(rhs@).representable()
    }

    open spec fn sub_spec(self, rhs: Point) -> Vector {
        Vector::of(self@.minus(rhs@))
    }
}

impl core::ops::Sub for Point {
    type Output = Vector;

    /// The displacement that leads from `rhs` to this point.
    fn sub(self, rhs: Point) -> (gap: Vector)
        ensures
            gap@ == self@.minus(rhs@),
    {
        Vector { x: self.x - rhs.x, y: self.y - rhs.y, z: self.z - rhs.z }
    }
}

impl vstd::std_specs::ops::SubSpecImpl<Vector> for Point {
    open spec fn obeys_sub_spec() -> bool {
        true
    }

    open spec fn sub_req(self, rhs: Vector) -> bool {
        self@.minus(rhs@).representable()
    }

    open spec fn sub_spec(self, rhs: Vector) -> Point {
        Point::of(self@.minus(rhs@))
    }
}

impl core::ops::Sub<Vector> for Point {
    type Output = Point;

    /// The point from which `rhs` leads to this one.
    fn sub(self, rhs: Vector) -> (moved: Point)
        ensures
            moved@ == self@.minus(rhs@),
    {
        Point { x: self.x - rhs.x, y: self.y - rhs.y, z: self.z - rhs.z }
    }
}

impl vstd::std_specs::ops::SubSpecImpl for Vector {
    open spec fn obeys_sub_spec() -> bool {
        true
    }

    open spec fn sub_req(self, rhs: Vector) -> bool {
        self@.minus(rhs@).representable()
    }

    open spec fn sub_spec(self, rhs: Vector) -> Vector {
        Vector::of(self@.minus(rhs@))
    }
}

impl core::ops::Sub for Vector {
    type Output = Vector;

    /// The difference of two vectors.
    fn sub(self, rhs: Vector) -> (difference: Vector)
        ensures
            difference@ == self@.minus(rhs@),
    {
        Vector { x: self.x - rhs.x, y: self.y - rhs.y, z: self.z - rhs.z }
    }
}

impl vstd::std_specs::ops::NegSpecImpl for Vector {
    open spec fn obeys_neg_spec() -> bool {
        true
    }

    open spec fn neg_req(self) -> bool {
        self@.negated().representable()
    }

    open spec fn neg_spec(self) -> Vector {
        Vector::of(self@.negated())
    }
}

impl core::ops::Neg for Vector {
    type Output = Vector;

    /// The vector of the same length that points the other way.
    fn neg(self) -> (opposite: Vector)
        ensures
            opposite@ == self@.negated(),
    {
        Vector { x: -self.x, y: -self.y, z: -self.z }
    }
}

impl vstd::std_specs::ops::MulSpecImpl<Scalar> for Vector {
    open spec fn obeys_mul_spec() -> bool {
        true
    }

    open spec fn mul_req(self, rhs: Scalar) -> bool {
        self@.scaled(rhs@).representable()
    }

    open spec fn mul_spec(self, rhs: Scalar) -> Vector {
        Vector::of(self@.scaled(rhs@))
    }
}

impl core::ops::Mul<Scalar> for Vector {
    type Output = Vector;

    /// This vector stretched by `rhs`.
    fn mul(self, rhs: Scalar) -> (stretched: Vector)
        ensures
            stretched@ == self@.scaled(rhs@),
    {
        Vector {
            x: multiply(self.x, rhs.0),
            y: multiply(self.y, rhs.0),
            z: multiply(self.z, rhs.0),
        }
    }
}

impl<'a> vstd::std_specs::ops::MulSpecImpl<Scalar> for &'a Vector {
    open spec fn obeys_mul_spec() -> bool {
        true
    }

    open spec fn mul_req(self, rhs: Scalar) -> bool {
        self@.scaled(rhs@).representable()
    }

    open spec fn mul_spec(self, rhs: Scalar) -> Vector {
        Vector::of(self@.scaled(rhs@))
    }
}

impl<'a> core::ops::Mul<Scalar> for &'a Vector {
    type Output = Vector;

    /// This vector, borrowed, stretched by `rhs`.
    fn mul(self, rhs: Scalar) -> (stretched: Vector)
        ensures
            stretched@ == self@.scaled(rhs@),
    {
        Vector {
            x: multiply(self.x, rhs.0),
            y: multiply(self.y, rhs.0),
            z: multiply(self.z, rhs.0),
        }
    }
}

impl vstd::std_specs::ops::DivSpecImpl<Scalar> for Vector {
    open spec fn obeys_div_spec() -> bool {
        true
    }

    open spec fn div_req(self, rhs: Scalar) -> bool {
        rhs@ != 0 ==> self@.divided(rhs@).representable()
    }

    open spec fn div_spec(self, rhs: Scalar) -> Result<Vector, DivisionByZero> {
        if rhs@ == 0 {
            Err(DivisionByZero)
        } else {
            Ok(Vector::of(self@.divided(rhs@)))
        }
    }
}

impl core::ops::Div<Scalar> for Vector {
    type Output = Result<Vector, DivisionByZero>;

    /// This vector shrunk by `rhs`, unless `rhs` is zero.
    fn div(self, rhs: Scalar) -> (shrunk: Result<Vector, DivisionByZero>)
        ensures
            rhs@ == 0 <==> shrunk.is_err(),
            rhs@ != 0 ==> shrunk.unwrap()@ == self@.divided(rhs@),
    {
        if rhs.0 == 0 {
            Err(DivisionByZero)
        } else {
            Ok(
                Vector {
                    x: divide(self.x, rhs.0),
                    y: divide(self.y, rhs.0),
                    z: divide(self.z, rhs.0),
                },
            )
        }
    }
}

/// A sum of three squares is zero only where each of them is.
pub proof fn lemma_norm_squared(c: Coords)
    ensures
        c.norm_squared() >= 0,
        c.norm_squared() >= c.x * c.x >= 0,
        c.norm_squared() >= c.y * c.y >= 0,
        c.norm_squared() >= c.z * c.z >= 0,
        c.norm_squared() == 0 <==> c.is_zero(),
{
    assert(c.x * c.x >= 0 && (c.x * c.x == 0 <==> c.x == 0)) by (nonlinear_arith);
    assert(c.y * c.y >= 0 && (c.y * c.y == 0 <==> c.y == 0)) by (nonlinear_arith);
    assert(c.z * c.z >= 0 && (c.z * c.z == 0 <==> c.z == 0)) by (nonlinear_arith);
}

/// The length is never negative, is zero for the zero vector alone, and no
/// coordinate exceeds it in magnitude.
pub proof fn lemma_length(c: Coords)
    ensures
        is_length(c.length(), c.norm_squared()),
        c.length() >= 0,
        c.length() == 0 <==> c.is_zero(),
        -c.length() * GRAIN <= c.x <= c.length() * GRAIN,
        -c.length() * GRAIN <= c.y <= c.length() * GRAIN,
        -c.length() * GRAIN <= c.z <= c.length() * GRAIN,
{
    lemma_norm_squared(c);
    lemma_length_of(c.norm_squared());
    let m = c.length() * GRAIN;
    let s = c.norm_squared();
    assert(c.length() == 0 ==> s == 0) by (nonlinear_arith)
        requires
            s >= 0,
            s <= (c.length() * GRAIN) * (c.length() * GRAIN),
    ;
    if s == 0 {
        assert(is_length(0, s));
        lemma_length_is(0, s);
    }
    lemma_square_bound(c.x, m, s);
    lemma_square_bound(c.y, m, s);
    lemma_square_bound(c.z, m, s);
}

/// A number whose square stays within `m` squared lies within `m` of zero.
proof fn lemma_square_bound(a: int, m: int, s: int)
    by (nonlinear_arith)
    requires
        0 <= m,
        a * a <= s,
        s <= m * m,
    ensures
        -m <= a <= m,
{
}

/// From the shares of the three coordinates to the length that they make up.
#[verifier::rlimit(40)]
proof fn lemma_unit_sum(k: Coords, c: Coords, s: int, u: int, r: int)
    by (nonlinear_arith)
    requires
        u >= 9,
        s > 0,
        s == c.x * c.x + c.y * c.y + c.z * c.z,
        0 <= k.x <= u,
        0 <= k.y <= u,
        0 <= k.z <= u,
        (k.x * k.x) * s <= (c.x * c.x) * (u * u) < ((k.x + 1) * (k.x + 1)) * s,
        (k.y * k.y) * s <= (c.y * c.y) * (u * u) < ((k.y + 1) * (k.y + 1)) * s,
        (k.z * k.z) * s <= (c.z * c.z) * (u * u) < ((k.z + 1) * (k.z + 1)) * s,
        0 <= r,
        r * r <= k.x * k.x + k.y * k.y + k.z * k.z < (r + 1) * (r + 1),
    ensures
        u - 4 <= r <= u,
        (u - 4) * (u - 4) <= k.x * k.x + k.y * k.y + k.z * k.z <= u * u,
{
    let t = k.x * k.x + k.y * k.y + k.z * k.z;
    let above = (k.x + 1) * (k.x + 1) + (k.y + 1) * (k.y + 1) + (k.z + 1) * (k.z + 1);
    assert(t * s == (k.x * k.x) * s + (k.y * k.y) * s + (k.z * k.z) * s);
    assert(s * (u * u) == (c.x * c.x) * (u * u) + (c.y * c.y) * (u * u) + (c.z * c.z) * (u * u));
    assert(above * s == ((k.x + 1) * (k.x + 1)) * s + ((k.y + 1) * (k.y + 1)) * s + ((k.z + 1) * (
        k.z + 1)) * s);
    assert(t * s <= s * (u * u));
    assert(t <= u * u);
    assert(r <= u);
    assert(above * s > s * (u * u));
    assert(above > u * u);
    assert(above == t + 2 * (k.x + k.y + k.z) + 3);
    assert(t >= u * u - 6 * u - 2);
    assert(t >= (u - 4) * (u - 4));
    assert(r + 1 > u - 4);
}

/// The length of a normalized vector is one, and each of its coordinates
/// lies between zero and one on the side of the coordinate that it came
/// from.
pub proof fn lemma_normalized_length(c: Coords)
    requires
        !c.is_zero(),
    ensures
        c.normalized().length() == SCALAR_UNIT,
        c.normalized().representable(),
        (UNIT - 4) * (UNIT - 4) <= c.normalized().norm_squared() <= UNIT * UNIT,
{
    let s = c.norm_squared();
    let n = c.normalized();
    lemma_norm_squared(c);
    lemma_share(c.x, s);
    lemma_share(c.y, s);
    lemma_share(c.z, s);
    let k = Coords { x: magnitude(n.x), y: magnitude(n.y), z: magnitude(n.z) };
    assert(k.x * k.x == n.x * n.x) by (nonlinear_arith)
        requires
            k.x == magnitude(n.x),
    ;
    assert(k.y * k.y == n.y * n.y) by (nonlinear_arith)
        requires
            k.y == magnitude(n.y),
    ;
    assert(k.z * k.z == n.z * n.z) by (nonlinear_arith)
        requires
            k.z == magnitude(n.z),
    ;
    lemma_norm_squared(n);
    let t = n.norm_squared();
    let r = root(t);
    lemma_root(t);
    lemma_unit_sum(k, c, s, UNIT as int, r);
    let u = UNIT as int;
    assert(is_length(SCALAR_UNIT as int, t)) by (nonlinear_arith)
        requires
            u == 100_000_000_000_000,
            SCALAR_UNIT == 100_000_000_000,
            GRAIN == 1_000,
            (u - 4) * (u - 4) <= t <= u * u,
    ;
    lemma_length_is(SCALAR_UNIT as int, t);
}

impl Vector {
    /// The sum of the squares of the coordinates.
    fn norm_squared(&self) -> (s: u128)
        ensures
            s == self@.norm_squared(),
    {
        proof {
            lemma_norm_squared(self@);
        }
        let xx: i128 = wide_product(self.x, self.x);
        let yy: i128 = wide_product(self.y, self.y);
        let zz: i128 = wide_product(self.z, self.z);
        (xx as u128) + (yy as u128) + (zz as u128)
    }

    /// Whether the sum of this vector and `rhs` can be held.
    pub fn can_add(&self, rhs: &Vector) -> (fits: bool)
        ensures
            fits == self@.plus(rhs@).representable(),
    {
        sum_fits(self.x, rhs.x) && sum_fits(self.y, rhs.y) && sum_fits(self.z, rhs.z)
    }

    /// Whether the difference of this vector and `rhs` can be held.
    pub fn can_sub(&self, rhs: &Vector) -> (fits: bool)
        ensures
            fits == self@.minus(rhs@).representable(),
    {
        difference_fits(self.x, rhs.x) && difference_fits(self.y, rhs.y) && difference_fits(
            self.z,
            rhs.z,
        )
    }

    /// Whether the opposite of this vector can be held.
    pub fn can_negate(&self) -> (fits: bool)
        ensures
            fits == self@.negated().representable(),
    {
        self.x != i64::MIN && self.y != i64::MIN && self.z != i64::MIN
    }

    /// Whether `/` accepts this vector and `by`: whether `by` is zero, which
    /// gives the error, or this vector shrunk by `by` can be held.
    pub fn can_divide(&self, by: Scalar) -> (fits: bool)
        ensures
            fits == (by@ != 0 ==> self@.divided(by@).representable()),
    {
        by.0 == 0 || (quotient_fits(self.x, by.0) && quotient_fits(self.y, by.0) && quotient_fits(
            self.z,
            by.0,
        ))
    }

    /// Whether the inner product of this vector and `rhs` can be held.
    pub fn can_dot(&self, rhs: &Vector) -> (fits: bool)
        ensures
            fits == in_range(self@.dot(rhs@)),
    {
        scaled_sum_fits(
            wide_product(self.x, rhs.x),
            wide_product(self.y, rhs.y),
            wide_product(self.z, rhs.z),
        )
    }

    /// Whether the cross product of this vector and `rhs` can be held.
    pub fn can_cross(&self, rhs: &Vector) -> (fits: bool)
        ensures
            fits == self@.cross(rhs@).representable(),
    {
        let x: i128 = (wide_product(self.y, rhs.z) - wide_product(self.z, rhs.y))
            / 100_000_000_000_000;
        let y: i128 = (wide_product(self.z, rhs.x) - wide_product(self.x, rhs.z))
            / 100_000_000_000_000;
        let z: i128 = (wide_product(self.x, rhs.y) - wide_product(self.y, rhs.x))
            / 100_000_000_000_000;
        -0x8000_0000_0000_0000 <= x && x <= 0x7fff_ffff_ffff_ffff && -0x8000_0000_0000_0000 <= y
            && y <= 0x7fff_ffff_ffff_ffff && -0x8000_0000_0000_0000 <= z && z
            <= 0x7fff_ffff_ffff_ffff
    }

    /// Whether this vector stretched by `by` can be held.
    pub fn can_scale(&self, by: Scalar) -> (fits: bool)
        ensures
            fits == self@.scaled(by@).representable(),
    {
        product_fits(self.x, by.0) && product_fits(self.y, by.0) && product_fits(self.z, by.0)
    }

    /// The Euclidean length of this vector, rounded up to whole units of a
    /// scalar.
    pub fn magnitude(&self) -> (length: Scalar)
        ensures
            length@ == self@.length(),
            length@ >= 0,
            length@ == 0 <==> self@.is_zero(),
    {
        proof {
            lemma_length(self@);
        }
        Scalar(length(self.norm_squared()))
    }

    /// The vector of length one that points the way of this one, unless this
    /// is the zero vector.
    pub fn normalize(&self) -> (unit: Result<Vector, DivisionByZero>)
        ensures
            self@.is_zero() <==> unit.is_err(),
            !self@.is_zero() ==> unit.unwrap()@ == self@.normalized(),
            !self@.is_zero() ==> unit.unwrap()@.length() == SCALAR_UNIT,
    {
        proof {
            lemma_norm_squared(self@);
        }
        let total: u128 = self.norm_squared();
        if total == 0 {
            Err(DivisionByZero)
        } else {
            proof {
                lemma_normalized_length(self@);
            }
            Ok(
                Vector {
                    x: unit_share(self.x, total),
                    y: unit_share(self.y, total),
                    z: unit_share(self.z, total),
                },
            )
        }
    }

    /// The inner product of this vector and `rhs`.
    pub fn dot(&self, rhs: &Vector) -> (inner: Scalar)
        requires
            in_range(self@.dot(rhs@)),
        ensures
            inner@ == self@.dot(rhs@),
    {
        let xx: i128 = wide_product(self.x, rhs.x);
        let yy: i128 = wide_product(self.y, rhs.y);
        let zz: i128 = wide_product(self.z, rhs.z);
        let total: i128 = xx + yy + zz;
        Scalar((total / AREA_UNIT) as i64)
    }

    /// The right-handed cross product of this vector and `rhs`.
    pub fn cross(&self, rhs: &Vector) -> (normal: Vector)
        requires
            self@.cross(rhs@).representable(),
        ensures
            normal@ == self@.cross(rhs@),
    {
        let x: i128 = wide_product(self.y, rhs.z) - wide_product(self.z, rhs.y);
        let y: i128 = wide_product(self.z, rhs.x) - wide_product(self.x, rhs.z);
        let z: i128 = wide_product(self.x, rhs.y) - wide_product(self.y, rhs.x);
        Vector {
            x: (x / (UNIT as i128)) as i64,
            y: (y / (UNIT as i128)) as i64,
            z: (z / (UNIT as i128)) as i64,
        }
    }
}

impl PartialEq for Point {
    /// Whether the two points agree in every coordinate within the tolerances.
    fn eq(&self, other: &Point) -> (same: bool) {
        nearly_equal(self.x, other.x, ABSOLUTE_TOLERANCE) && nearly_equal(
            self.y,
            other.y,
            ABSOLUTE_TOLERANCE,
        ) && nearly_equal(self.z, other.z, ABSOLUTE_TOLERANCE)
    }
}

impl vstd::std_specs::cmp::PartialEqSpecImpl for Point {
    open spec fn obeys_eq_spec() -> bool {
        true
    }

    open spec fn eq_spec(&self, other: &Point) -> bool {
        self@.close_to(other@)
    }
}

impl PartialEq for Vector {
    /// Whether the two vectors agree in every coordinate within the tolerances.
    fn eq(&self, other: &Vector) -> (same: bool) {
        nearly_equal(self.x, other.x, ABSOLUTE_TOLERANCE) && nearly_equal(
            self.y,
            other.y,
            ABSOLUTE_TOLERANCE,
        ) && nearly_equal(self.z, other.z, ABSOLUTE_TOLERANCE)
    }
}

impl vstd::std_specs::cmp::PartialEqSpecImpl for Vector {
    open spec fn obeys_eq_spec() -> bool {
        true
    }

    open spec fn eq_spec(&self, other: &Vector) -> bool {
        self@.close_to(other@)
    }
}

impl PartialEq for Scalar {
    /// Whether the two scalars agree within the tolerances.
    fn eq(&self, other: &Scalar) -> (same: bool) {
        nearly_equal(self.0, other.0, SCALAR_TOLERANCE)
    }
}

impl vstd::std_specs::cmp::PartialEqSpecImpl for Scalar {
    open spec fn obeys_eq_spec() -> bool {
        true
    }

    open spec fn eq_spec(&self, other: &Scalar) -> bool {
        close(self@, other@, SCALAR_TOLERANCE as int)
    }
}

impl PartialOrd for Scalar {
    /// The order of the two values, with no tolerance.
    fn partial_cmp(&self, other: &Scalar) -> (order: Option<Ordering>) {
        if self.0 < other.0 {
            Some(Ordering::Less)
        } else if self.0 > other.0 {
            Some(Ordering::Greater)
        } else {
            Some(Ordering::Equal)
        }
    }
}

impl vstd::std_specs::cmp::PartialOrdSpecImpl for Scalar {
    open spec fn obeys_partial_cmp_spec() -> bool {
        true
    }

    open spec fn partial_cmp_spec(&self, other: &Scalar) -> Option<Ordering> {
        if self@ < other@ {
            Some(Ordering::Less)
        } else if self@ > other@ {
            Some(Ordering::Greater)
        } else {
            Some(Ordering::Equal)
        }
    }
}

} // verus!
