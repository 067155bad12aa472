//! Fixed-point numbers of two kinds.
//!
//! A coordinate `q` is held as the integer `q * UNIT`, with fourteen decimal
//! places; a scalar `q` as the integer `q * SCALAR_UNIT`, with eleven. Sums
//! and differences are exact. Products, quotients and shares are rounded
//! once, toward zero, and lengths once, upward, so each of them is off by
//! less than one unit of its kind.
//!
//! Equality forgives one thousandth, and that is how far the operations can
//! drift from one another. A scalar other than zero is at least one of its
//! units, so a coordinate stretched by it and shrunk again is off by less
//! than `SCALAR_UNIT` units of a coordinate: one thousandth. A scalar is at
//! most an `i64`, so a length rounded by one unit and stretched by it is off
//! by less than a hundred million units of a scalar: one thousandth again.
//!
//! Each operation whose result may not fit in an `i64` has a guard beside it
//! that tells whether it does.

use vstd::prelude::*;

verus! {

/// The integer that stands for the coordinate 1.0.
pub const UNIT: i64 = 100_000_000_000_000;

/// The integer that stands for the scalar 1.0.
pub const SCALAR_UNIT: i64 = 100_000_000_000;

/// How many units of a coordinate make up one unit of a scalar.
pub const GRAIN: i64 = 1_000;

/// Two coordinates that differ by no more than this many of their units, one
/// thousandth, are equal.
pub const ABSOLUTE_TOLERANCE: i64 = 100_000_000_000;

/// Two scalars that differ by no more than this many of their units, one
/// thousandth, are equal.
pub const SCALAR_TOLERANCE: i64 = 100_000_000;

/// Two numbers are also equal when they differ by no more than one part in
/// this many of the larger of their magnitudes.
pub const RELATIVE_PRECISION: i64 = 1_000_000;

/// Whether `n` can be held in an `i64`.
pub open spec fn in_range(n: int) -> bool {
    i64::MIN <= n <= i64::MAX
}

/// The magnitude of `n`.
pub open spec fn magnitude(n: int) -> int {
    if n < 0 {
        -n
    } else {
        n
    }
}

/// The quotient of `n` by `d`, rounded toward zero, for `d != 0`.
pub open spec fn truncated(n: int, d: int) -> int {
    if n >= 0 {
        n / d
    } else {
        -((-n) / d)
    }
}

/// The product of a coordinate or a scalar `a` and the scalar `b`, of the
/// kind of `a`.
pub open spec fn product(a: int, b: int) -> int {
    truncated(a * b, SCALAR_UNIT as int)
}

/// The quotient of a coordinate or a scalar `a` by the scalar `b`, of the
/// kind of `a`, for `b != 0`.
pub open spec fn quotient(a: int, b: int) -> int {
    truncated(a * SCALAR_UNIT, b)
}

/// Whether `m` is the length, as a scalar, of a vector whose coordinates
/// have the squares that sum to `s`: the square root of `s`, rounded up to
/// whole units of a scalar.
pub open spec fn is_length(m: int, s: int) -> bool {
    &&& 0 <= m
    &&& s <= (m * GRAIN) * (m * GRAIN)
    &&& m > 0 ==> ((m - 1) * GRAIN) * ((m - 1) * GRAIN) < s
}

/// The length, as a scalar, of a vector whose coordinates have the squares
/// that sum to `s`, for `s >= 0`.
pub open spec fn length_of(s: int) -> int {
    choose|m: int| is_length(m, s)
}

/// Whether `r` is the square root of `n`, rounded down.
pub open spec fn is_root(r: int, n: int) -> bool {
    0 <= r && r * r <= n < (r + 1) * (r + 1)
}

/// The square root of `n`, rounded down, for `n >= 0`.
pub open spec fn root(n: int) -> int {
    choose|r: int| is_root(r, n)
}

/// The share `x / sqrt(s)` that a coordinate `x` has in a length whose
/// square is `s`, rounded toward zero, for `s > 0`.
pub open spec fn share(x: int, s: int) -> int {
    if x >= 0 {
        root((x * x) * (UNIT * UNIT) / s)
    } else {
        -root((x * x) * (UNIT * UNIT) / s)
    }
}

/// Whether `a` and `b` are equal within `tolerance` or within one part in
/// `RELATIVE_PRECISION`.
pub open spec fn close(a: int, b: int, tolerance: int) -> bool {
    let gap = magnitude(a - b);
    let largest = if magnitude(a) >= magnitude(b) {
        magnitude(a)
    } else {
        magnitude(b)
    };
    gap <= tolerance || gap * RELATIVE_PRECISION <= largest
}

/// A number has at most one rounded-down square root.
pub proof fn lemma_root_unique(r: int, s: int, n: int)
    requires
        is_root(r, n),
        is_root(s, n),
    ensures
        r == s,
{
    assert(r < s + 1) by (nonlinear_arith)
        requires
            0 <= r,
            0 <= s,
            r * r < (s + 1) * (s + 1),
    ;
    assert(s < r + 1) by (nonlinear_arith)
        requires
            0 <= r,
            0 <= s,
            s * s < (r + 1) * (r + 1),
    ;
}

/// Every natural number has a rounded-down square root, and `root` is it.
pub proof fn lemma_root(n: int)
    requires
        0 <= n,
    ensures
        is_root(root(n), n),
    decreases n,
{
    if n == 0 {
        assert(is_root(0, n));
    } else {
        lemma_root(n - 1);
        let r = root(n - 1);
        if (r + 1) * (r + 1) <= n {
            assert((r + 1) * (r + 1) < (r + 2) * (r + 2)) by (nonlinear_arith)
                requires
                    0 <= r,
            ;
            assert(is_root(r + 1, n));
        } else {
            assert(is_root(r, n));
        }
    }
}

/// What pins down `root(n)`: any rounded-down square root of `n` is `root(n)`.
pub proof fn lemma_root_is(r: int, n: int)
    requires
        is_root(r, n),
    ensures
        root(n) == r,
{
    assert(0 <= n) by (nonlinear_arith)
        requires
            r * r <= n,
    ;
    lemma_root(n);
    lemma_root_unique(r, root(n), n);
}

/// What pins down a length: any number that is a length of `s` is
/// `length_of(s)`.
pub proof fn lemma_length_is(m: int, s: int)
    requires
        is_length(m, s),
    ensures
        length_of(s) == m,
{
    let n = length_of(s);
    assert(is_length(n, s));
    assert(n < m + 1) by (nonlinear_arith)
        requires
            0 <= n,
            0 <= m,
            GRAIN > 0,
            n > 0 ==> ((n - 1) * GRAIN) * ((n - 1) * GRAIN) < s,
            s <= (m * GRAIN) * (m * GRAIN),
    ;
    assert(m < n + 1) by (nonlinear_arith)
        requires
            0 <= n,
            0 <= m,
            GRAIN > 0,
            m > 0 ==> ((m - 1) * GRAIN) * ((m - 1) * GRAIN) < s,
            s <= (n * GRAIN) * (n * GRAIN),
    ;
}

/// Every natural number has a length, and `length_of` is it.
pub proof fn lemma_length_of(s: int)
    requires
        0 <= s,
    ensures
        is_length(length_of(s), s),
{
    lemma_root(s);
    let floor = root(s);
    let c = if floor * floor == s {
        floor
    } else {
        floor + 1
    };
    let m = (c + 999) / 1_000;
    let g = m * 1_000;
    assert(s <= c * c) by (nonlinear_arith)
        requires
            floor * floor <= s < (floor + 1) * (floor + 1),
            c == floor || c == floor + 1,
            c == floor ==> floor * floor == s,
    ;
    assert(c * c <= g * g) by (nonlinear_arith)
        requires
            0 <= c <= g,
    ;
    if m > 0 {
        let under = (m - 1) * 1_000;
        assert(under * under < s) by (nonlinear_arith)
            requires
                0 <= under < c,
                0 <= floor,
                floor * floor <= s,
                c == floor || (c == floor + 1 && floor * floor != s),
        ;
    }
    assert(is_length(m, s));
    lemma_length_is(m, s);
}

/// Rounding toward zero treats a number and its opposite alike.
pub proof fn lemma_truncated_odd(n: int, d: int)
    requires
        d != 0,
    ensures
        truncated(-n, d) == -truncated(n, d),
{
    assert(0int / d == 0) by (nonlinear_arith)
        requires
            d != 0,
    ;
}

/// The magnitude of a quotient rounded toward zero is the quotient of the
/// magnitudes, rounded down; its sign is the sign of an exact quotient.
pub proof fn lemma_truncated_split(n: int, d: int)
    requires
        d != 0,
    ensures
        magnitude(truncated(n, d)) == magnitude(n) / magnitude(d),
        (n >= 0 && d > 0) || (n <= 0 && d < 0) ==> truncated(n, d) >= 0,
        (n <= 0 && d > 0) || (n >= 0 && d < 0) ==> truncated(n, d) <= 0,
{
    let m = magnitude(n);
    let e = magnitude(d);
    assert(m / e >= 0) by (nonlinear_arith)
        requires
            m >= 0,
            e > 0,
    ;
    assert(0int / d == 0) by (nonlinear_arith)
        requires
            d != 0,
    ;
    if d < 0 {
        assert(m / d == -(m / e)) by (nonlinear_arith)
            requires
                m >= 0,
                d < 0,
                e == -d,
        ;
    }
}

/// A quotient rounded toward zero, multiplied back, falls short of the
/// dividend by less than the divisor.
pub proof fn lemma_truncated_bounds(n: int, d: int)
    requires
        d != 0,
    ensures
        magnitude(truncated(n, d)) * magnitude(d) <= magnitude(n),
        magnitude(n) < magnitude(truncated(n, d)) * magnitude(d) + magnitude(d),
{
    lemma_truncated_split(n, d);
    let m = magnitude(n);
    let e = magnitude(d);
    assert((m / e) * e <= m < (m / e) * e + e) by (nonlinear_arith)
        requires
            m >= 0,
            e > 0,
    ;
}

/// Multiplying by a scalar and dividing by it again leads back toward the
/// start: the result lies between zero and `x`, and what is lost shrinks as the
/// scalar grows.
#[verifier::rlimit(40)]
pub proof fn lemma_product_quotient(x: int, s: int)
    requires
        s != 0,
    ensures
        x >= 0 ==> 0 <= quotient(product(x, s), s) <= x,
        x <= 0 ==> x <= quotient(product(x, s), s) <= 0,
        magnitude(x - quotient(product(x, s), s)) * magnitude(s) < SCALAR_UNIT + magnitude(s),
{
    let u = SCALAR_UNIT as int;
    let a = product(x, s);
    let b = quotient(a, s);
    let big_x = magnitude(x);
    let big_s = magnitude(s);
    let big_a = magnitude(a);
    let big_b = magnitude(b);
    lemma_truncated_split(x * s, u);
    lemma_truncated_bounds(x * s, u);
    lemma_truncated_split(a * u, s);
    lemma_truncated_bounds(a * u, s);
    assert(magnitude(x * s) == big_x * big_s) by (nonlinear_arith)
        requires
            big_x == magnitude(x),
            big_s == magnitude(s),
    ;
    assert(magnitude(a * u) == big_a * u) by (nonlinear_arith)
        requires
            big_a == magnitude(a),
            u > 0,
    ;
    assert((x >= 0 && s > 0) || (x <= 0 && s < 0) ==> x * s >= 0) by (nonlinear_arith);
    assert((x <= 0 && s > 0) || (x >= 0 && s < 0) ==> x * s <= 0) by (nonlinear_arith);
    assert(a >= 0 ==> a * u >= 0) by (nonlinear_arith)
        requires
            u > 0,
    ;
    assert(a <= 0 ==> a * u <= 0) by (nonlinear_arith)
        requires
            u > 0,
    ;
    assert(big_b <= big_x && (big_x - big_b) * big_s < u + big_s) by (nonlinear_arith)
        requires
            big_s > 0,
            big_a * u <= big_x * big_s,
            big_x * big_s < big_a * u + u,
            big_b * big_s <= big_a * u,
            big_a * u < big_b * big_s + big_s,
    ;
}

/// The product of zero and any number is zero.
pub proof fn lemma_zero_product(d: int)
    ensures
        product(0, d) == 0,
        product(d, 0) == 0,
{
    assert(0 * d == 0 && d * 0 == 0) by (nonlinear_arith);
}

/// What pins down a share: its magnitude `q` is the largest number whose
/// square times `s` stays within the square of `x`.
#[verifier::rlimit(40)]
pub proof fn lemma_share_is(q: int, x: int, s: int)
    requires
        s > 0,
        q >= 0,
        (q * q) * s <= (x * x) * (UNIT * UNIT) < ((q + 1) * (q + 1)) * s,
    ensures
        magnitude(share(x, s)) == q,
        x >= 0 ==> share(x, s) == q,
        x <= 0 ==> share(x, s) == -q,
{
    let n = (x * x) * (UNIT * UNIT);
    let d = n / s;
    assert(d * s <= n < d * s + s) by (nonlinear_arith)
        requires
            s > 0,
            d == n / s,
    ;
    assert(q * q <= d < (q + 1) * (q + 1)) by (nonlinear_arith)
        requires
            s > 0,
            d * s <= n < d * s + s,
            (q * q) * s <= n < ((q + 1) * (q + 1)) * s,
    ;
    lemma_root_is(q, d);
    if x == 0 {
        assert(n == 0) by (nonlinear_arith)
            requires
                x == 0,
                n == (x * x) * (UNIT * UNIT),
        ;
        assert(q == 0) by (nonlinear_arith)
            requires
                q >= 0,
                s > 0,
                (q * q) * s <= 0,
        ;
    }
}

/// A share of a coordinate no longer than the length lies between zero and
/// one on the side of the coordinate, and is the largest number whose square
/// times `s` stays within the square of `x`.
#[verifier::rlimit(40)]
pub proof fn lemma_share(x: int, s: int)
    requires
        s > 0,
        x * x <= s,
    ensures
        0 <= magnitude(share(x, s)) <= UNIT,
        x >= 0 ==> share(x, s) >= 0,
        x <= 0 ==> share(x, s) <= 0,
        (magnitude(share(x, s)) * magnitude(share(x, s))) * s <= (x * x) * (UNIT * UNIT),
        (x * x) * (UNIT * UNIT) < ((magnitude(share(x, s)) + 1) * (magnitude(share(x, s)) + 1))
            * s,
{
    let u = UNIT as int;
    let n = (x * x) * (u * u);
    let d = n / s;
    assert(n >= 0) by (nonlinear_arith)
        requires
            n == (x * x) * (u * u),
    ;
    assert(0 <= d && d * s <= n < d * s + s) by (nonlinear_arith)
        requires
            s > 0,
            n >= 0,
            d == n / s,
    ;
    lemma_root(d);
    let q = root(d);
    assert(magnitude(share(x, s)) == q);
    assert((q * q) * s <= n < ((q + 1) * (q + 1)) * s) by (nonlinear_arith)
        requires
            s > 0,
            d * s <= n < d * s + s,
            q * q <= d < (q + 1) * (q + 1),
    ;
    assert(q <= u) by (nonlinear_arith)
        requires
            s > 0,
            q >= 0,
            u > 0,
            x * x <= s,
            (q * q) * s <= (x * x) * (u * u),
    ;
    if x == 0 {
        assert(q == 0) by (nonlinear_arith)
            requires
                q >= 0,
                s > 0,
                x == 0,
                (q * q) * s <= (x * x) * (u * u),
        ;
    }
}

/// The product of two `i64` values, which always fits in an `i128`.
pub fn wide_product(a: i64, b: i64) -> (p: i128)
    ensures
        p == a * b,
        -0x3fff_ffff_ffff_ffff_8000_0000_0000_0000 <= p <= 0x4000_0000_0000_0000_0000_0000_0000_0000,
{
    assert(-0x3fff_ffff_ffff_ffff_8000_0000_0000_0000 <= a * b
        <= 0x4000_0000_0000_0000_0000_0000_0000_0000) by (nonlinear_arith)
        requires
            -0x8000_0000_0000_0000 <= a <= 0x7fff_ffff_ffff_ffff,
            -0x8000_0000_0000_0000 <= b <= 0x7fff_ffff_ffff_ffff,
    ;
    (a as i128) * (b as i128)
}

/// Multiplies two fixed-point numbers.
pub fn multiply(a: i64, b: i64) -> (r: i64)
    requires
        in_range(product(a as int, b as int)),
    ensures
        r == product(a as int, b as int),
{
    let scaled: i128 = wide_product(a, b) / (SCALAR_UNIT as i128);
    scaled as i64
}

/// Divides one fixed-point number by another.
pub fn divide(a: i64, b: i64) -> (r: i64)
    requires
        b != 0,
        in_range(quotient(a as int, b as int)),
    ensures
        r == quotient(a as int, b as int),
{
    let scaled: i128 = ((a as i128) * (SCALAR_UNIT as i128)) / (b as i128);
    scaled as i64
}

/// Whether the sum of `a` and `b` can be held in an `i64`.
pub fn sum_fits(a: i64, b: i64) -> (fits: bool)
    ensures
        fits == in_range(a + b),
{
    let sum: i128 = (a as i128) + (b as i128);
    -0x8000_0000_0000_0000 <= sum && sum <= 0x7fff_ffff_ffff_ffff
}

/// Whether the difference of `a` and `b` can be held in an `i64`.
pub fn difference_fits(a: i64, b: i64) -> (fits: bool)
    ensures
        fits == in_range(a - b),
{
    let difference: i128 = (a as i128) - (b as i128);
    -0x8000_0000_0000_0000 <= difference && difference <= 0x7fff_ffff_ffff_ffff
}

/// Whether the fixed-point quotient of `a` by `b` can be held in an `i64`.
pub fn quotient_fits(a: i64, b: i64) -> (fits: bool)
    requires
        b != 0,
    ensures
        fits == in_range(quotient(a as int, b as int)),
{
    let numerator: i128 = (a as i128) * 100_000_000_000;
    proof {
        lemma_truncated_split(numerator as int, b as int);
        assert(magnitude(numerator as int) / magnitude(b as int) <= magnitude(numerator as int))
            by (nonlinear_arith)
            requires
                magnitude(b as int) >= 1,
        ;
    }
    let scaled: i128 = numerator / (b as i128);
    -0x8000_0000_0000_0000 <= scaled && scaled <= 0x7fff_ffff_ffff_ffff
}

/// The divisor that leads from a product of two coordinates to a scalar.
pub const AREA_UNIT: i128 = 100_000_000_000_000_000;

/// Whether the sum of three products of coordinates, scaled down to a
/// scalar, can be held in an `i64`.
pub fn scaled_sum_fits(a: i128, b: i128, c: i128) -> (fits: bool)
    requires
        -0x4000_0000_0000_0000_0000_0000_0000_0000 <= a <= 0x4000_0000_0000_0000_0000_0000_0000_0000,
        -0x4000_0000_0000_0000_0000_0000_0000_0000 <= b <= 0x4000_0000_0000_0000_0000_0000_0000_0000,
        -0x4000_0000_0000_0000_0000_0000_0000_0000 <= c <= 0x4000_0000_0000_0000_0000_0000_0000_0000,
    ensures
        fits == in_range(truncated(a + b + c, AREA_UNIT as int)),
{
    let whole_a: i128 = a / 100_000_000_000_000_000;
    let whole_b: i128 = b / 100_000_000_000_000_000;
    let whole_c: i128 = c / 100_000_000_000_000_000;
    let rest: i128 = (a - whole_a * 100_000_000_000_000_000) + (b - whole_b
        * 100_000_000_000_000_000) + (c - whole_c * 100_000_000_000_000_000);
    let whole: i128 = whole_a + whole_b + whole_c;
    if whole > 0x1_0000_0000_0000_0000 || whole < -0x1_0000_0000_0000_0000 {
        false
    } else {
        let scaled: i128 = (whole * 100_000_000_000_000_000 + rest) / 100_000_000_000_000_000;
        -0x8000_0000_0000_0000 <= scaled && scaled <= 0x7fff_ffff_ffff_ffff
    }
}

/// Whether the fixed-point product of `a` and `b` can be held in an `i64`.
pub fn product_fits(a: i64, b: i64) -> (fits: bool)
    ensures
        fits == in_range(product(a as int, b as int)),
{
    let scaled: i128 = wide_product(a, b) / (SCALAR_UNIT as i128);
    -0x8000_0000_0000_0000 <= scaled && scaled <= 0x7fff_ffff_ffff_ffff
}

/// The square root of `n`, rounded down.
pub fn integer_sqrt(n: u128) -> (r: u64)
    ensures
        r == root(n as int),
{
    let mut low: u128 = 0;
    let mut high: u128 = 0x1_0000_0000_0000_0000;
    assert(n < high * high) by (nonlinear_arith)
        requires
            high == 0x1_0000_0000_0000_0000,
            n <= u128::MAX,
    ;
    while high - low > 1
        invariant
            low < high <= 0x1_0000_0000_0000_0000,
            low * low <= n < high * high,
        decreases high - low,
    {
        let middle: u128 = low + (high - low) / 2;
        assert(middle * middle <= u128::MAX) by (nonlinear_arith)
            requires
                0 <= middle < 0x1_0000_0000_0000_0000,
        ;
        if middle * middle <= n {
            low = middle;
        } else {
            high = middle;
        }
    }
    proof {
        lemma_root_is(low as int, n as int);
    }
    low as u64
}

/// Compares two fixed-point numbers within `tolerance` or within one part in
/// `RELATIVE_PRECISION`.
pub fn nearly_equal(a: i64, b: i64, tolerance: i64) -> (r: bool)
    ensures
        r == close(a as int, b as int, tolerance as int),
{
    let x: i128 = a as i128;
    let y: i128 = b as i128;
    let gap: i128 = if x >= y { x - y } else { y - x };
    let size_x: i128 = if x < 0 { -x } else { x };
    let size_y: i128 = if y < 0 { -y } else { y };
    let largest: i128 = if size_x >= size_y { size_x } else { size_y };
    assert(gap * RELATIVE_PRECISION == gap * 1_000_000);
    gap <= tolerance as i128 || gap * (RELATIVE_PRECISION as i128) <= largest
}

/// The length, as a scalar, of a vector whose coordinates have the squares
/// that sum to `s`: the square root of `s`, rounded up to whole units of a
/// scalar. It always fits.
pub fn length(s: u128) -> (m: i64)
    ensures
        m == length_of(s as int),
        is_length(m as int, s as int),
{
    let floor: u128 = integer_sqrt(s) as u128;
    proof {
        lemma_root(s as int);
        assert(floor * floor <= u128::MAX) by (nonlinear_arith)
            requires
                0 <= floor <= 0xffff_ffff_ffff_ffff,
        ;
    }
    let ceiling: u128 = if floor * floor == s { floor } else { floor + 1 };
    let m: u128 = (ceiling + 999) / 1_000;
    proof {
        let c = ceiling as int;
        let g = m as int * 1_000;
        assert(s <= c * c) by (nonlinear_arith)
            requires
                floor * floor <= s < (floor + 1) * (floor + 1),
                c == floor || c == floor + 1,
                c == floor ==> floor * floor == s,
        ;
        assert(c * c <= g * g) by (nonlinear_arith)
            requires
                0 <= c <= g,
        ;
        if m > 0 {
            let under = (m as int - 1) * 1_000;
            assert(under * under < s) by (nonlinear_arith)
                requires
                    0 <= under < c,
                    0 <= floor,
                    floor * floor <= s,
                    c == floor || (c == floor + 1 && floor * floor != s),
            ;
        }
        assert(is_length(m as int, s as int));
        lemma_length_is(m as int, s as int);
    }
    m as i64
}

/// The product of `a` and `b` in two parts: the first counts 2^128s, the
/// second is less than 2^128.
#[verifier::rlimit(40)]
fn wide_times(a: u128, b: u128) -> (parts: (u128, u128))
    ensures
        parts.0 * 0x1_0000_0000_0000_0000_0000_0000_0000_0000 + parts.1 == a * b,
{
    let a1: u128 = a / 0x1_0000_0000_0000_0000;
    let a0: u128 = a % 0x1_0000_0000_0000_0000;
    let b1: u128 = b / 0x1_0000_0000_0000_0000;
    let b0: u128 = b % 0x1_0000_0000_0000_0000;
    proof {
        lemma_limb_product(a0 as int, b0 as int);
        lemma_limb_product(a0 as int, b1 as int);
        lemma_limb_product(a1 as int, b0 as int);
        lemma_limb_product(a1 as int, b1 as int);
    }
    let low_low: u128 = a0 * b0;
    let low_high: u128 = a0 * b1;
    let high_low: u128 = a1 * b0;
    let high_high: u128 = a1 * b1;
    assert(a * b == high_high * 0x1_0000_0000_0000_0000_0000_0000_0000_0000 + (low_high + high_low)
        * 0x1_0000_0000_0000_0000 + low_low) by (nonlinear_arith)
        requires
            a == a1 * 0x1_0000_0000_0000_0000 + a0,
            b == b1 * 0x1_0000_0000_0000_0000 + b0,
            low_low == a0 * b0,
            low_high == a0 * b1,
            high_low == a1 * b0,
            high_high == a1 * b1,
    ;
    let middle: u128 = low_low / 0x1_0000_0000_0000_0000 + low_high % 0x1_0000_0000_0000_0000 + high_low
        % 0x1_0000_0000_0000_0000;
    let low: u128 = (middle % 0x1_0000_0000_0000_0000) * 0x1_0000_0000_0000_0000 + low_low
        % 0x1_0000_0000_0000_0000;
    let high: u128 = high_high + low_high / 0x1_0000_0000_0000_0000 + high_low / 0x1_0000_0000_0000_0000 + middle
        / 0x1_0000_0000_0000_0000;
    (high, low)
}

/// The product of two numbers under 2^64 stays under the square of 2^64 less
/// one.
proof fn lemma_limb_product(a: int, b: int)
    by (nonlinear_arith)
    requires
        0 <= a <= 0xffff_ffff_ffff_ffff,
        0 <= b <= 0xffff_ffff_ffff_ffff,
    ensures
        0 <= a * b <= 0xffff_ffff_ffff_fffe_0000_0000_0000_0001,
{
}

/// The share `x / sqrt(s)` of a coordinate in a length whose square is `s`,
/// rounded toward zero.
#[verifier::rlimit(40)]
pub fn unit_share(x: i64, s: u128) -> (r: i64)
    requires
        s > 0,
        x * x <= s,
    ensures
        r == share(x as int, s as int),
{
    let ghost goal = (x * x) * (UNIT * UNIT);
    assert(x * x >= 0) by (nonlinear_arith);
    let square: u128 = wide_product(x, x) as u128;
    let target = wide_times(square, 10_000_000_000_000_000_000_000_000_000);
    let mut low: u64 = 0;
    let mut high: u64 = 100_000_000_000_001;
    proof {
        assert(UNIT * UNIT == 10_000_000_000_000_000_000_000_000_000) by (nonlinear_arith)
            requires
                UNIT == 100_000_000_000_000,
        ;
        assert(goal == square * 10_000_000_000_000_000_000_000_000_000);
        assert((low * low) * s <= goal < (high * high) * s) by (nonlinear_arith)
            requires
                low == 0,
                high == 100_000_000_000_001,
                s > 0,
                0 <= x * x <= s,
                goal == (x * x) * 10_000_000_000_000_000_000_000_000_000,
        ;
    }
    while high - low > 1
        invariant
            low < high <= 100_000_000_000_001,
            s > 0,
            goal == target.0 * 0x1_0000_0000_0000_0000_0000_0000_0000_0000 + target.1,
            (low * low) * s <= goal < (high * high) * s,
        decreases high - low,
    {
        let middle: u64 = low + (high - low) / 2;
        assert(middle * middle <= 0x4000_0000_0000_0000_0000_0000) by (nonlinear_arith)
            requires
                0 <= middle <= 100_000_000_000_001,
        ;
        let trial = wide_times(s, (middle as u128) * (middle as u128));
        assert(s * (middle * middle) == (middle * middle) * s) by (nonlinear_arith);
        if trial.0 < target.0 || (trial.0 == target.0 && trial.1 <= target.1) {
            low = middle;
        } else {
            high = middle;
        }
    }
    proof {
        lemma_share_is(low as int, x as int, s as int);
    }
    if x < 0 {
        -(low as i64)
    } else {
        low as i64
    }
}

} // verus!
