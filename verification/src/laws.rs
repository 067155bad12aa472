//! What holds of the operations on points, vectors and scalars, whatever
//! their operands.
//!
//! Sums and differences are exact, so the laws about them are equalities.
//! Products, quotients and lengths are rounded, so the laws that go through
//! them hold within the tolerances. They hold of every operand that can be
//! held: a scalar cannot be smaller than one unit of a scalar nor larger
//! than an `i64`, and that bounds what a rounding can grow to.

use crate::fixed::{
    close, lemma_product_quotient, lemma_share, lemma_truncated_bounds, lemma_truncated_odd,
    lemma_truncated_split, lemma_zero_product, magnitude, product, share, ABSOLUTE_TOLERANCE,
    GRAIN, SCALAR_TOLERANCE, SCALAR_UNIT, UNIT,
};
use crate::tuple::{
    lemma_length, lemma_norm_squared, lemma_normalized_length, Point, Scalar, Vector,
};
use crate::world::{Domain, World, DAMPING, REST_SPEED};
use vstd::prelude::*;
use vstd::std_specs::ops::{AddSpec, DivSpec, MulSpec, SubSpec};

verus! {

/// The sum of two vectors does not depend on their order: `a + b` can be
/// held exactly when `b + a` can, and the two are the same vector.
pub proof fn law_sum_commutes(a: Vector, b: Vector)
    ensures
        a@.plus(b@) == b@.plus(a@),
        a.add_req(b) == b.add_req(a),
        a.add_spec(b) == b.add_spec(a),
{
}

/// The sum of three vectors does not depend on which two are added first:
/// where `a + b` and `b + c` can be held, `(a + b) + c` can be held exactly
/// when `a + (b + c)` can, and the two are the same vector.
pub proof fn law_sum_associates(a: Vector, b: Vector, c: Vector)
    ensures
        a@.plus(b@).plus(c@) == a@.plus(b@.plus(c@)),
        a.add_req(b) && b.add_req(c) ==> a.add_spec(b).add_req(c) == a.add_req(b.add_spec(c)),
        a.add_req(b) && b.add_req(c) && a.add_spec(b).add_req(c) ==> a.add_spec(b).add_spec(c)
            == a.add_spec(b.add_spec(c)),
{
}

/// Swapping the operands of a cross product flips its sign.
pub proof fn law_cross_anticommutes(a: Vector, b: Vector)
    ensures
        a@.cross(b@) == b@.cross(a@).negated(),
{
    let u = UNIT as int;
    let (p, q) = (a@, b@);
    assert(p.y * q.z - p.z * q.y == -(q.y * p.z - q.z * p.y)) by (nonlinear_arith);
    assert(p.z * q.x - p.x * q.z == -(q.z * p.x - q.x * p.z)) by (nonlinear_arith);
    assert(p.x * q.y - p.y * q.x == -(q.x * p.y - q.y * p.x)) by (nonlinear_arith);
    lemma_truncated_odd(q.y * p.z - q.z * p.y, u);
    lemma_truncated_odd(q.z * p.x - q.x * p.z, u);
    lemma_truncated_odd(q.x * p.y - q.y * p.x, u);
}

/// Moving a point by a vector and back again leads to the point itself:
/// where `p + v` can be held, `(p + v) - v` can be held and is `p`.
pub proof fn law_move_round_trip(p: Point, v: Vector)
    ensures
        p@.plus(v@).minus(v@) == p@,
        p.add_req(v) ==> p.add_spec(v).sub_req(v) && p.add_spec(v).sub_spec(v) == p,
{
}

/// Stretching a vector by a scalar and shrinking it by the same scalar loses,
/// in each coordinate, less than one unit of a scalar divided by the scalar,
/// and one rounding of the division.
pub proof fn law_scaling_round_trip_bound(v: Vector, s: Scalar)
    requires
        s@ != 0,
    ensures
        ({
            let back = v@.scaled(s@).divided(s@);
            &&& magnitude(v@.x - back.x) * magnitude(s@) < SCALAR_UNIT + magnitude(s@)
            &&& magnitude(v@.y - back.y) * magnitude(s@) < SCALAR_UNIT + magnitude(s@)
            &&& magnitude(v@.z - back.z) * magnitude(s@) < SCALAR_UNIT + magnitude(s@)
        }),
{
    lemma_product_quotient(v@.x, s@);
    lemma_product_quotient(v@.y, s@);
    lemma_product_quotient(v@.z, s@);
}

/// Stretching a vector by a scalar other than zero and shrinking it by the
/// same scalar gives the vector back within the tolerances: where `v * s`
/// can be held, `(v * s) / s` can be held, is no error and is equal to `v`.
pub proof fn law_scaling_round_trip(v: Vector, s: Scalar)
    requires
        s@ != 0,
    ensures
        v@.scaled(s@).divided(s@).close_to(v@),
        v.mul_req(s) ==> v.mul_spec(s).div_req(s) && v.mul_spec(s).div_spec(s).is_ok()
            && v.mul_spec(s).div_spec(s).unwrap()@.close_to(v@),
{
    let back = v@.scaled(s@).divided(s@);
    law_scaling_round_trip_bound(v, s);
    lemma_small_gap(v@.x - back.x, s@);
    lemma_small_gap(v@.y - back.y, s@);
    lemma_small_gap(v@.z - back.z, s@);
    lemma_product_quotient(v@.x, s@);
    lemma_product_quotient(v@.y, s@);
    lemma_product_quotient(v@.z, s@);
}

/// A gap that, multiplied by a scalar other than zero, stays under one and
/// the scalar is within the absolute tolerance.
proof fn lemma_small_gap(gap: int, s: int)
    by (nonlinear_arith)
    requires
        s != 0,
        magnitude(gap) * magnitude(s) < SCALAR_UNIT + magnitude(s),
        ABSOLUTE_TOLERANCE == SCALAR_UNIT,
    ensures
        magnitude(gap) <= ABSOLUTE_TOLERANCE,
        magnitude(-gap) <= ABSOLUTE_TOLERANCE,
{
}

/// Normalizing a vector other than zero gives a vector of length one.
pub proof fn law_normalized_has_unit_length(v: Vector)
    requires
        !v@.is_zero(),
    ensures
        v@.normalized().length() == SCALAR_UNIT,
        close(v@.normalized().length(), SCALAR_UNIT as int, SCALAR_TOLERANCE as int),
{
    lemma_normalized_length(v@);
}

/// Of two numbers that are not negative, the one with the smaller square is
/// the smaller.
proof fn lemma_square_order(a: int, b: int)
    by (nonlinear_arith)
    requires
        0 <= a,
        0 <= b,
    ensures
        a * a <= b * b ==> a <= b,
        a * a < b * b ==> a < b,
{
}

/// A share of a coordinate, stretched by the length again: `k` is the
/// magnitude of the share of a coordinate of magnitude `a`, `m` the length
/// and `p` the magnitude of their product.
#[verifier::rlimit(40)]
proof fn lemma_stretched_share(a: int, s: int, k: int, m: int, p: int, g: int, u: int)
    requires
        0 <= a,
        0 < s,
        0 <= k <= g * u,
        0 <= p,
        1 <= m,
        0 < g,
        0 < u,
        (k * k) * s <= (a * a) * ((g * u) * (g * u)) < ((k + 1) * (k + 1)) * s,
        ((m - 1) * g) * ((m - 1) * g) < s <= (m * g) * (m * g),
        p * u <= k * m < p * u + u,
    ensures
        p <= a + g,
        (a - p) * u < m + u,
{
    let low = (m - 1) * g;
    let high = m * g;
    let all = a * (g * u);
    assert(all * all == (a * a) * ((g * u) * (g * u))) by (nonlinear_arith)
        requires
            all == a * (g * u),
    ;
    assert((k * low) * (k * low) == (k * k) * (low * low)) by (nonlinear_arith);
    assert((k * k) * (low * low) <= (k * k) * s) by (nonlinear_arith)
        requires
            low * low < s,
    ;
    assert(0 <= k * low && 0 <= all && 0 <= (k + 1) * high) by (nonlinear_arith)
        requires
            0 <= k,
            0 <= low,
            0 <= high,
            all == a * (g * u),
            0 <= a,
            0 < g,
            0 < u,
    ;
    lemma_square_order(k * low, all);
    assert(k * (m - 1) <= a * u) by (nonlinear_arith)
        requires
            k * low <= all,
            low == (m - 1) * g,
            all == a * (g * u),
            0 < g,
    ;
    assert(p * u <= (a + g) * u) by (nonlinear_arith)
        requires
            k * (m - 1) <= a * u,
            p * u <= k * m,
            k <= g * u,
    ;
    assert(p <= a + g) by (nonlinear_arith)
        requires
            p * u <= (a + g) * u,
            0 < u,
    ;
    assert(((k + 1) * high) * ((k + 1) * high) == ((k + 1) * (k + 1)) * (high * high))
        by (nonlinear_arith);
    assert(((k + 1) * (k + 1)) * s <= ((k + 1) * (k + 1)) * (high * high)) by (nonlinear_arith)
        requires
            s <= high * high,
    ;
    lemma_square_order(all, (k + 1) * high);
    assert(a * u < (k + 1) * m) by (nonlinear_arith)
        requires
            all < (k + 1) * high,
            high == m * g,
            all == a * (g * u),
            0 < g,
    ;
    assert((a - p) * u < m + u) by (nonlinear_arith)
        requires
            a * u < (k + 1) * m,
            k * m < p * u + u,
    ;
}

/// `lemma_stretched_share` of one coordinate `x` of a vector whose squares
/// sum to `s` and whose length is `m`.
proof fn lemma_stretch_back(x: int, s: int, m: int)
    requires
        0 < s,
        x * x <= s,
        1 <= m,
        ((m - 1) * GRAIN) * ((m - 1) * GRAIN) < s <= (m * GRAIN) * (m * GRAIN),
        m <= 0x1_0000_0000_0000_0000,
    ensures
        close(product(share(x, s), m), x, ABSOLUTE_TOLERANCE as int),
{
    let n = share(x, s);
    let k = magnitude(n);
    let w = product(n, m);
    let p = magnitude(w);
    let a = magnitude(x);
    lemma_share(x, s);
    lemma_truncated_bounds(n * m, SCALAR_UNIT as int);
    lemma_truncated_split(n * m, SCALAR_UNIT as int);
    assert(magnitude(n * m) == k * m) by (nonlinear_arith)
        requires
            k == magnitude(n),
            m >= 1,
    ;
    assert(n >= 0 ==> n * m >= 0) by (nonlinear_arith)
        requires
            m >= 1,
    ;
    assert(n <= 0 ==> n * m <= 0) by (nonlinear_arith)
        requires
            m >= 1,
    ;
    assert(a * a == x * x) by (nonlinear_arith)
        requires
            a == magnitude(x),
    ;
    assert((GRAIN * SCALAR_UNIT) * (GRAIN * SCALAR_UNIT) == UNIT * UNIT) by (nonlinear_arith)
        requires
            GRAIN * SCALAR_UNIT == UNIT,
    ;
    lemma_stretched_share(a, s, k, m, p, GRAIN as int, SCALAR_UNIT as int);
    assert(a - p <= 0x1_0000_0000_0000_0000) by (nonlinear_arith)
        requires
            (a - p) * SCALAR_UNIT < m + SCALAR_UNIT,
            m <= 0x1_0000_0000_0000_0000,
            SCALAR_UNIT == 100_000_000_000,
    ;
}

/// The length of a vector whose coordinates are held in 64 bits is less
/// than two hundred thousand.
pub proof fn lemma_length_bound(v: Vector)
    ensures
        0 <= v@.length() <= 20_000_000_000_000_000,
{
    let m = v@.length();
    let s = v@.norm_squared();
    lemma_length(v@);
    lemma_norm_squared(v@);
    assert(v@.x * v@.x <= 0x4000_0000_0000_0000_0000_0000_0000_0000) by (nonlinear_arith)
        requires
            -0x8000_0000_0000_0000 <= v@.x <= 0x7fff_ffff_ffff_ffff,
    ;
    assert(v@.y * v@.y <= 0x4000_0000_0000_0000_0000_0000_0000_0000) by (nonlinear_arith)
        requires
            -0x8000_0000_0000_0000 <= v@.y <= 0x7fff_ffff_ffff_ffff,
    ;
    assert(v@.z * v@.z <= 0x4000_0000_0000_0000_0000_0000_0000_0000) by (nonlinear_arith)
        requires
            -0x8000_0000_0000_0000 <= v@.z <= 0x7fff_ffff_ffff_ffff,
    ;
    if m > 0 {
        let low = (m - 1) * GRAIN;
        assert(low < 0x1_0000_0000_0000_0000) by (nonlinear_arith)
            requires
                0 <= low,
                low * low < 0xc000_0000_0000_0000_0000_0000_0000_0000,
        ;
    }
}

/// Normalizing a vector other than zero and stretching the result by the
/// length of the vector gives the vector back within the tolerances.
pub proof fn law_normalize_then_stretch(v: Vector)
    requires
        !v@.is_zero(),
    ensures
        v@.normalized().scaled(v@.length()).close_to(v@),
{
    let s = v@.norm_squared();
    let m = v@.length();
    lemma_norm_squared(v@);
    lemma_length(v@);
    lemma_normalized_length(v@);
    lemma_length_bound(v);
    lemma_stretch_back(v@.x, s, m);
    lemma_stretch_back(v@.y, s, m);
    lemma_stretch_back(v@.z, s, m);
}

/// What rounding a product does to the square of one coordinate: `b` is the
/// magnitude of the product of a coordinate of magnitude `a` and a scalar of
/// magnitude `f`.
#[verifier::rlimit(40)]
proof fn lemma_scaled_coordinate(a: int, b: int, f: int, u: int)
    by (nonlinear_arith)
    requires
        0 <= a,
        0 <= b,
        0 <= f,
        0 < u,
        b * u <= a * f < b * u + u,
    ensures
        (b * b) * (u * u) <= (a * a) * (f * f),
        (b * b) * (u * u) >= (a * a) * (f * f) - 2 * (u * (a * f)),
{
    let p = b * u;
    let q = a * f;
    assert(p * p == (b * b) * (u * u));
    assert(q * q == (a * a) * (f * f));
    assert(p * p <= q * q);
    assert(p * p >= q * q - 2 * (u * q));
}

/// The length of a stretched vector is no more than one unit beyond the
/// length of the vector times the scalar.
#[verifier::rlimit(40)]
proof fn lemma_scaled_length_above(s: int, t: int, f: int, m: int, l: int, w: int, g: int, u: int)
    by (nonlinear_arith)
    requires
        0 < u,
        0 < g,
        0 <= f,
        0 <= m,
        0 <= l,
        0 <= w,
        0 <= s <= (m * g) * (m * g),
        t * (u * u) <= (f * f) * s,
        l > 0 ==> ((l - 1) * g) * ((l - 1) * g) < t,
        f * m < w * u + u,
    ensures
        l <= w + 1,
{
    if l > 0 {
        let low = (l - 1) * g;
        assert((low * u) * (low * u) == (low * low) * (u * u));
        assert((low * low) * (u * u) < (f * f) * s || f * f * s == 0);
        assert((f * f) * s <= (f * f) * ((m * g) * (m * g)));
        assert((f * (m * g)) * (f * (m * g)) == (f * f) * ((m * g) * (m * g)));
        if l > 1 {
            assert(low * u < f * (m * g));
            assert(low * u == ((l - 1) * u) * g);
            assert(f * (m * g) == (f * m) * g);
            assert((l - 1) * u < f * m);
        }
    }
}

/// A number whose square, weighted by `g`, stays close to the weighted
/// square of another falls short of it by no more than eight units.
#[verifier::rlimit(40)]
proof fn lemma_short_by_eight(z: int, p: int, f: int, u: int, g: int)
    by (nonlinear_arith)
    requires
        0 <= z,
        0 <= f <= p,
        0 < u,
        2 <= g,
        g * (z * z) >= g * (p * p) - 6 * (u * (p + f)),
    ensures
        z >= p - 8 * u,
{
    if p > 8 * u && z < p - 8 * u {
        let d = p - 8 * u;
        assert(z * z <= (d - 1) * (d - 1));
        assert(z * z < d * d);
        assert(g * (z * z) < g * (d * d));
        assert(d * d == p * p - 16 * (u * p) + 64 * (u * u));
        assert(g * (d * d) == g * (p * p) - 16 * (g * (u * p)) + 64 * (g * (u * u)));
        assert(8 * (g * (u * p)) > 64 * (g * (u * u)));
        assert(8 * (g * (u * p)) >= 16 * (u * p));
        assert(6 * (u * (p + f)) <= 12 * (u * p));
        assert(false);
    }
}

/// The length of a stretched vector falls short of the length of the vector
/// times the scalar by no more than the scalar and eight units.
#[verifier::rlimit(40)]
proof fn lemma_scaled_length_below(
    s: int,
    t: int,
    sum: int,
    f: int,
    m: int,
    l: int,
    w: int,
    g: int,
    u: int,
)
    requires
        0 < u,
        2 <= g,
        0 <= f,
        1 <= m,
        0 <= l,
        0 <= w,
        0 <= sum <= 3 * (m * g),
        ((m - 1) * g) * ((m - 1) * g) < s,
        t * (u * u) >= (f * f) * s - 2 * (u * (sum * f)),
        t <= (l * g) * (l * g),
        w * u <= f * m,
    ensures
        (w - l - 8) * u <= f,
{
    let z = l * u;
    let p = f * (m - 1);
    let low = (m - 1) * g;
    assert(((l * g) * (l * g)) * (u * u) >= t * (u * u)) by (nonlinear_arith)
        requires
            t <= (l * g) * (l * g),
    ;
    assert((f * f) * s >= (f * f) * (low * low)) by (nonlinear_arith)
        requires
            low * low < s,
    ;
    assert(2 * (u * (sum * f)) <= 6 * (u * ((m * g) * f))) by (nonlinear_arith)
        requires
            0 <= sum <= 3 * (m * g),
            0 <= f,
            0 < u,
    ;
    assert(((l * g) * (l * g)) * (u * u) == (g * g) * (z * z)) by (nonlinear_arith)
        requires
            z == l * u,
    ;
    assert((f * f) * (low * low) == (g * g) * (p * p)) by (nonlinear_arith)
        requires
            p == f * (m - 1),
            low == (m - 1) * g,
    ;
    assert(6 * (u * ((m * g) * f)) == g * (6 * (u * (p + f)))) by (nonlinear_arith)
        requires
            p == f * (m - 1),
    ;
    let left = g * (z * z);
    let right = g * (p * p) - 6 * (u * (p + f));
    assert(g * left >= g * right) by (nonlinear_arith)
        requires
            (g * g) * (z * z) >= (g * g) * (p * p) - g * (6 * (u * (p + f))),
            left == g * (z * z),
            right == g * (p * p) - 6 * (u * (p + f)),
    ;
    assert(left >= right) by (nonlinear_arith)
        requires
            g > 0,
            g * left >= g * right,
    ;
    if m == 1 {
        assert(f * m == f) by (nonlinear_arith)
            requires
                m == 1,
        ;
        assert((w - l - 8) * u <= f) by (nonlinear_arith)
            requires
                w * u <= f,
                0 <= l,
                0 < u,
        ;
    } else {
        assert(p >= f && z >= 0) by (nonlinear_arith)
            requires
                p == f * (m - 1),
                z == l * u,
                m >= 2,
                f >= 0,
                l >= 0,
                u > 0,
        ;
        lemma_short_by_eight(z, p, f, u, g);
        assert((w - l - 8) * u <= f) by (nonlinear_arith)
            requires
                l * u >= f * (m - 1) - 8 * u,
                w * u <= f * m,
        ;
    }
}

/// The length of a vector stretched by a scalar is the length of the vector
/// times the magnitude of the scalar, within the tolerances.
pub proof fn law_length_under_scaling(v: Vector, s: Scalar)
    ensures
        close(
            v@.scaled(s@).length(),
            product(magnitude(s@), v@.length()),
            SCALAR_TOLERANCE as int,
        ),
{
    let f = magnitude(s@);
    let g = GRAIN as int;
    let u = SCALAR_UNIT as int;
    let c = v@;
    let y = v@.scaled(s@);
    let m = c.length();
    let l = y.length();
    let w = product(f, m);
    lemma_length(c);
    lemma_length(y);
    lemma_norm_squared(c);
    lemma_norm_squared(y);
    lemma_scaled_pair(c.x, s@);
    lemma_scaled_pair(c.y, s@);
    lemma_scaled_pair(c.z, s@);
    let (a1, a2, a3) = (magnitude(c.x), magnitude(c.y), magnitude(c.z));
    let (b1, b2, b3) = (magnitude(y.x), magnitude(y.y), magnitude(y.z));
    let big = c.norm_squared();
    let t = y.norm_squared();
    lemma_truncated_bounds(f * m, u);
    lemma_truncated_split(f * m, u);
    assert(f * m >= 0) by (nonlinear_arith)
        requires
            f >= 0,
            m >= 0,
    ;
    assert(t * (u * u) == (b1 * b1) * (u * u) + (b2 * b2) * (u * u) + (b3 * b3) * (u * u))
        by (nonlinear_arith)
        requires
            t == y.x * y.x + y.y * y.y + y.z * y.z,
            b1 * b1 == y.x * y.x,
            b2 * b2 == y.y * y.y,
            b3 * b3 == y.z * y.z,
    ;
    assert((f * f) * big == (a1 * a1) * (f * f) + (a2 * a2) * (f * f) + (a3 * a3) * (f * f))
        by (nonlinear_arith)
        requires
            big == c.x * c.x + c.y * c.y + c.z * c.z,
            a1 * a1 == c.x * c.x,
            a2 * a2 == c.y * c.y,
            a3 * a3 == c.z * c.z,
    ;
    assert(u * ((a1 + a2 + a3) * f) == u * (a1 * f) + u * (a2 * f) + u * (a3 * f))
        by (nonlinear_arith);
    lemma_scaled_length_above(big, t, f, m, l, w, g, u);
    if m >= 1 {
        lemma_scaled_length_below(big, t, a1 + a2 + a3, f, m, l, w, g, u);
    } else {
        assert(w == 0) by (nonlinear_arith)
            requires
                m == 0,
                w >= 0,
                u > 0,
                w * u <= f * m,
        ;
    }
    assert(magnitude(l - w) <= SCALAR_TOLERANCE) by (nonlinear_arith)
        requires
            l <= w + 1,
            (w - l - 8) * u <= f || w == 0,
            l >= 0,
            0 <= f <= 0x8000_0000_0000_0000,
            u == 100_000_000_000,
            SCALAR_TOLERANCE == 100_000_000,
    ;
}

/// The magnitudes of a coordinate, of a scalar and of their product.
proof fn lemma_scaled_pair(x: int, s: int)
    ensures
        magnitude(product(x, s)) * magnitude(product(x, s)) == product(x, s) * product(x, s),
        magnitude(x) * magnitude(x) == x * x,
        (magnitude(product(x, s)) * magnitude(product(x, s))) * (SCALAR_UNIT * SCALAR_UNIT) <= (
        magnitude(x) * magnitude(x)) * (magnitude(s) * magnitude(s)),
        (magnitude(product(x, s)) * magnitude(product(x, s))) * (SCALAR_UNIT * SCALAR_UNIT) >= (
        magnitude(x) * magnitude(x)) * (magnitude(s) * magnitude(s)) - 2 * (SCALAR_UNIT * (
        magnitude(x) * magnitude(s))),
{
    let u = SCALAR_UNIT as int;
    let a = magnitude(x);
    let f = magnitude(s);
    let b = magnitude(product(x, s));
    lemma_truncated_bounds(x * s, u);
    assert(magnitude(x * s) == a * f) by (nonlinear_arith)
        requires
            a == magnitude(x),
            f == magnitude(s),
    ;
    assert(b * b == product(x, s) * product(x, s)) by (nonlinear_arith)
        requires
            b == magnitude(product(x, s)),
    ;
    assert(a * a == x * x) by (nonlinear_arith)
        requires
            a == magnitude(x),
    ;
    lemma_scaled_coordinate(a, b, f, u);
}

/// A share of a coordinate in a length that is one within four units is the
/// coordinate itself, or up to four units more.
#[verifier::rlimit(40)]
proof fn lemma_share_of_unit(n: int, t: int, k: int, u: int)
    by (nonlinear_arith)
    requires
        0 <= n <= u,
        0 <= k,
        100 <= u,
        (u - 4) * (u - 4) <= t <= u * u,
        (k * k) * t <= (n * n) * (u * u) < ((k + 1) * (k + 1)) * t,
    ensures
        n <= k <= n + 4,
{
    assert(((k + 1) * u) * ((k + 1) * u) == ((k + 1) * (k + 1)) * (u * u));
    assert(((k + 1) * (k + 1)) * t <= ((k + 1) * (k + 1)) * (u * u));
    assert((n * u) * (n * u) == (n * n) * (u * u));
    assert((n * u) * (n * u) < ((k + 1) * u) * ((k + 1) * u));
    assert(n * u < (k + 1) * u);
    assert(n < k + 1);
    assert((k * (u - 4)) * (k * (u - 4)) == (k * k) * ((u - 4) * (u - 4)));
    assert((k * k) * ((u - 4) * (u - 4)) <= (k * k) * t);
    assert((k * (u - 4)) * (k * (u - 4)) <= (n * u) * (n * u));
    assert(k * (u - 4) <= n * u);
    assert((n + 5) * (u - 4) > n * u);
    assert(k < n + 5);
}

/// Normalizing a vector of length one changes it by no more than four units
/// in a coordinate: normalizing twice is normalizing once, within the
/// tolerances.
pub proof fn law_normalize_is_idempotent(v: Vector)
    requires
        !v@.is_zero(),
    ensures
        !v@.normalized().is_zero(),
        v@.normalized().normalized().close_to(v@.normalized()),
{
    let n = v@.normalized();
    let t = n.norm_squared();
    let u = UNIT as int;
    lemma_normalized_length(v@);
    lemma_length(n);
    lemma_norm_squared(n);
    lemma_norm_squared(v@);
    lemma_share(v@.x, v@.norm_squared());
    lemma_share(v@.y, v@.norm_squared());
    lemma_share(v@.z, v@.norm_squared());
    lemma_idempotent_coordinate(n.x, t);
    lemma_idempotent_coordinate(n.y, t);
    lemma_idempotent_coordinate(n.z, t);
}

/// `lemma_share_of_unit` of one coordinate `n` of a vector whose squares sum
/// to `t`.
proof fn lemma_idempotent_coordinate(n: int, t: int)
    requires
        -UNIT <= n <= UNIT,
        n * n <= t,
        (UNIT - 4) * (UNIT - 4) <= t <= UNIT * UNIT,
    ensures
        close(share(n, t), n, ABSOLUTE_TOLERANCE as int),
{
    assert(t > 0) by (nonlinear_arith)
        requires
            (UNIT - 4) * (UNIT - 4) <= t,
            UNIT == 100_000_000_000_000,
    ;
    lemma_share(n, t);
    let k = magnitude(share(n, t));
    let a = magnitude(n);
    assert(a * a == n * n) by (nonlinear_arith)
        requires
            a == magnitude(n),
    ;
    lemma_share_of_unit(a, t, k, UNIT as int);
}

/// No coordinate of a vector is beyond its length, and the length is zero
/// for the zero vector alone.
pub proof fn law_length_bounds_coordinates(v: Vector)
    ensures
        magnitude(v@.x) <= v@.length() * GRAIN,
        magnitude(v@.y) <= v@.length() * GRAIN,
        magnitude(v@.z) <= v@.length() * GRAIN,
        v@.length() == 0 <==> v@.is_zero(),
{
    lemma_length(v@);
}

/// A vector and its opposite have one length.
pub proof fn law_length_ignores_direction(v: Vector)
    ensures
        v@.negated().length() == v@.length(),
{
    assert(v@.negated().norm_squared() == v@.norm_squared()) by (nonlinear_arith)
        requires
            v@.negated().x == -v@.x,
            v@.negated().y == -v@.y,
            v@.negated().z == -v@.z,
            v@.negated().norm_squared() == v@.negated().x * v@.negated().x + v@.negated().y
                * v@.negated().y + v@.negated().z * v@.negated().z,
            v@.norm_squared() == v@.x * v@.x + v@.y * v@.y + v@.z * v@.z,
    ;
}

/// The square of a length against the sum of squares that it is the length
/// of: `a` is the square of the length `m`, `d` the sum `s` of squares, both
/// as scalars.
#[verifier::rlimit(40)]
proof fn lemma_squared_length(s: int, m: int, a: int, d: int, g: int, u: int)
    by (nonlinear_arith)
    requires
        0 < g,
        0 < u,
        0 <= s,
        0 <= m,
        0 <= a,
        0 <= d,
        s <= (m * g) * (m * g),
        m > 0 ==> ((m - 1) * g) * ((m - 1) * g) < s,
        a * u <= m * m < a * u + u,
        d * ((g * g) * u) <= s < d * ((g * g) * u) + (g * g) * u,
    ensures
        d <= a,
        (a - d - 1) * u < 2 * m,
{
    assert((m * g) * (m * g) == (m * m) * (g * g));
    if a < d {
        assert((a + 1) * u <= d * u);
        assert(m * m < d * u);
        assert((m * m) * (g * g) < (d * u) * (g * g));
        assert((d * u) * (g * g) == d * ((g * g) * u));
        assert(false);
    }
    if m > 0 {
        assert(((m - 1) * g) * ((m - 1) * g) == ((m - 1) * (m - 1)) * (g * g));
        assert(d * ((g * g) * u) + (g * g) * u == ((d + 1) * u) * (g * g));
        assert(((m - 1) * (m - 1)) * (g * g) < ((d + 1) * u) * (g * g));
        assert((m - 1) * (m - 1) < (d + 1) * u);
        assert((m - 1) * (m - 1) == m * m - 2 * m + 1);
    } else {
        assert(m * m == 0);
        assert(a == 0);
    }
}

/// The square of the length of a vector is the inner product of the vector
/// with itself, within the tolerances.
pub proof fn law_length_squared_is_inner_product(v: Vector)
    ensures
        close(product(v@.length(), v@.length()), v@.dot(v@), SCALAR_TOLERANCE as int),
{
    let s = v@.norm_squared();
    let m = v@.length();
    let a = product(m, m);
    let d = v@.dot(v@);
    let g = GRAIN as int;
    let u = SCALAR_UNIT as int;
    lemma_norm_squared(v@);
    lemma_length(v@);
    assert(m * m >= 0) by (nonlinear_arith);
    assert((g * g) * u == 100_000_000_000_000_000) by (nonlinear_arith)
        requires
            g == 1_000,
            u == 100_000_000_000,
    ;
    lemma_squared_length(s, m, a, d, g, u);
    lemma_length_bound(v);
    assert(a - d <= SCALAR_TOLERANCE) by (nonlinear_arith)
        requires
            (a - d - 1) * u < 2 * m,
            m <= 20_000_000_000_000_000,
            u == 100_000_000_000,
            SCALAR_TOLERANCE == 100_000_000,
    ;
}

/// A box at rest can always take a step, and the step leaves it at rest
/// where it is.
pub proof fn law_rest_is_kept(world: World, delta_t: Scalar, domain: Domain)
    requires
        world.proj.velocity@.is_zero(),
    ensures
        world.tick_fits(delta_t@, domain),
        world.next_velocity(delta_t@, domain).is_zero(),
        world.next_position(delta_t@, domain) == world.proj.position@,
        world.after_tick(delta_t@, domain) == world,
{
    lemma_zero_product(-DAMPING);
    lemma_zero_product(DAMPING as int);
    lemma_zero_product(delta_t@);
    assert(world.rebound(domain).is_zero());
    lemma_length(world.rebound(domain));
}

/// A box at rest stays at rest where it is, however many steps follow and
/// however long each of them is.
pub proof fn law_rest_is_terminal(world: World, steps: Seq<Scalar>, domain: Domain)
    requires
        world.proj.velocity@.is_zero(),
    ensures
        world.after_ticks(steps, domain) == world,
    decreases steps.len(),
{
    if steps.len() > 0 {
        law_rest_is_kept(world, steps[0], domain);
        law_rest_is_terminal(world, steps.drop_first(), domain);
    }
}

/// A box that is slower than `REST_SPEED` once it has bounced comes to rest
/// in that step, whatever gravity and wind are.
pub proof fn law_slow_box_comes_to_rest(world: World, delta_t: Scalar, domain: Domain)
    requires
        world.rebound(domain).length() < REST_SPEED,
    ensures
        world.next_velocity(delta_t@, domain).is_zero(),
        world.next_position(delta_t@, domain) == world.proj.position@,
{
    lemma_zero_product(delta_t@);
}

/// A step of no time moves nothing, whatever the velocity.
pub proof fn law_no_time_no_motion(world: World, domain: Domain)
    ensures
        world.next_position(0, domain) == world.proj.position@,
{
    let velocity = world.next_velocity(0, domain);
    lemma_zero_product(velocity.x);
    lemma_zero_product(velocity.y);
    lemma_zero_product(velocity.z);
}

/// Equality within the tolerances does not depend on the order of its
/// operands, and holds of every value and itself.
pub proof fn law_equality_is_symmetric(a: Vector, b: Vector, p: Point, q: Point, s: Scalar, t: Scalar)
    ensures
        a@.close_to(b@) == b@.close_to(a@),
        p@.close_to(q@) == q@.close_to(p@),
        close(s@, t@, SCALAR_TOLERANCE as int) == close(t@, s@, SCALAR_TOLERANCE as int),
        a@.close_to(a@),
        p@.close_to(p@),
        close(s@, s@, SCALAR_TOLERANCE as int),
{
}

} // verus!
