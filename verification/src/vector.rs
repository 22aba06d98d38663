//! Two-dimensional fixed-point vectors.

use crate::fixed::{abs_wide, clamp, div_toward_zero, magnitude, narrow, sat_add, sat_neg, sat_sub, ONE, ONE_SQUARED};
use vstd::prelude::*;

verus! {

/// A point, a velocity or a direction in the plane, in fixed-point units.
#[derive(Clone, Copy, Debug, PartialEq, Eq, Structural)]
pub struct V2 {
    pub x: i64,
    pub y: i64,
}

impl vstd::std_specs::ops::AddSpecImpl for V2 {
    open spec fn obeys_add_spec() -> bool {
        true
    }

    open spec fn add_req(self, rhs: V2) -> bool {
        true
    }

    open spec fn add_spec(self, rhs: V2) -> V2 {
        self.plus(rhs)
    }
}

/// `a + b` is `a.plus(b)`.
impl std::ops::Add for V2 {
    type Output = V2;

    fn add(self, other: V2) -> V2 {
        V2 { x: sat_add(self.x, other.x), y: sat_add(self.y, other.y) }
    }
}

impl vstd::std_specs::ops::SubSpecImpl for V2 {
    open spec fn obeys_sub_spec() -> bool {
        true
    }

    open spec fn sub_req(self, rhs: V2) -> bool {
        true
    }

    open spec fn sub_spec(self, rhs: V2) -> V2 {
        self.minus(rhs)
    }
}

/// `a - b` is `a.minus(b)`.
impl std::ops::Sub for V2 {
    type Output = V2;

    fn sub(self, other: V2) -> V2 {
        V2 { x: sat_sub(self.x, other.x), y: sat_sub(self.y, other.y) }
    }
}

impl V2 {
    /// The vector with the given components.
    pub fn new(x: i64, y: i64) -> (v: V2)
        ensures
            v == (V2 { x, y }),
    {
        V2 { x, y }
    }

    /// The componentwise sum, each component saturating.
    pub open spec fn plus(self, other: V2) -> V2 {
        V2 { x: clamp(self.x + other.x), y: clamp(self.y + other.y) }
    }

    /// The componentwise difference, each component saturating.
    pub open spec fn minus(self, other: V2) -> V2 {
        V2 { x: clamp(self.x - other.x), y: clamp(self.y - other.y) }
    }

    /// The sum of the squares of the raw components.
    pub open spec fn norm_squared(self) -> int {
        self.x * self.x + self.y * self.y
    }

    /// The vector turned a quarter turn counter-clockwise: `(-y, x)`.
    pub open spec fn turned_left(self) -> V2 {
        V2 { x: clamp(-self.y), y: self.x }
    }

    /// The vector divided by its squared length, each component rounded toward
    /// zero; `None` for the zero vector, which has no such quotient.
    ///
    /// In real terms the components are `x / (x² + y²)` and `y / (x² + y²)`: the
    /// divisor is the squared length, not the length.
    pub open spec fn spec_normalized(self) -> Option<V2> {
        let n = self.norm_squared();
        if n == 0 {
            None
        } else {
            Some(
                V2 {
                    x: clamp(div_toward_zero(self.x * ONE_SQUARED, n)),
                    y: clamp(div_toward_zero(self.y * ONE_SQUARED, n)),
                },
            )
        }
    }

    /// The dot product, rounded toward zero and saturating.
    pub open spec fn spec_dot(self, other: V2) -> i64 {
        clamp(div_toward_zero(self.x * other.x + self.y * other.y, ONE as int))
    }

    /// The fixed-point reciprocal of the squared length, rounded toward zero.
    pub open spec fn inverse_norm_squared(self) -> int
        recommends
            self.norm_squared() > 0,
    {
        (ONE * ONE * ONE) / self.norm_squared()
    }

    /// Whether dividing by the squared length loses nothing in either
    /// component.
    pub open spec fn divides_evenly(self) -> bool {
        &&& self.norm_squared() > 0
        &&& (self.x * ONE_SQUARED) % self.norm_squared() == 0
        &&& (self.y * ONE_SQUARED) % self.norm_squared() == 0
    }

    /// Turns the vector a quarter turn counter-clockwise.
    pub fn turn_left(self) -> (r: V2)
        ensures
            r == self.turned_left(),
    {
        V2 { x: sat_neg(self.y), y: self.x }
    }

    /// Divides the vector by its squared length.
    pub fn normalized(self) -> (r: Option<V2>)
        ensures
            r == self.spec_normalized(),
            r is None <==> (self.x == 0 && self.y == 0),
            r matches Some(n) ==> magnitude(n.x as int) <= ONE_SQUARED && magnitude(n.y as int)
                <= ONE_SQUARED,
    {
        let ax: u128 = abs_wide(self.x);
        let ay: u128 = abs_wide(self.y);
        proof {
            lemma_square_bound(ax as int);
            lemma_square_bound(ay as int);
            lemma_square_of_magnitude(self.x as int);
            lemma_square_of_magnitude(self.y as int);
        }
        let norm: u128 = ax * ax + ay * ay;
        if norm == 0 {
            proof {
                lemma_zero_norm(self.x as int, self.y as int);
            }
            return None;
        }
        let scale: u128 = ONE_SQUARED as u128;
        let qx: u128 = (ax * scale) / norm;
        let qy: u128 = (ay * scale) / norm;
        proof {
            lemma_quotient_bound(ax as int, ay as int);
            lemma_quotient_bound(ay as int, ax as int);
        }
        let x: i64 = if self.x >= 0 {
            qx as i64
        } else {
            -(qx as i64)
        };
        let y: i64 = if self.y >= 0 {
            qy as i64
        } else {
            -(qy as i64)
        };
        Some(V2 { x, y })
    }

    /// The dot product with `other`.
    pub fn dot(self, other: V2) -> (r: i64)
        ensures
            r == self.spec_dot(other),
    {
        let p: i128 = self.x as i128;
        let q: i128 = other.x as i128;
        let s: i128 = self.y as i128;
        let t: i128 = other.y as i128;
        proof {
            lemma_product_bound(p as int, q as int);
            lemma_product_bound(s as int, t as int);
        }
        let first: i128 = p * q;
        let second: i128 = s * t;
        match first.checked_add(second) {
            Some(total) => narrow(total / (ONE as i128)),
            None => i64::MAX,
        }
    }
}

/// Normalizing and then taking the dot product of the result with itself gives
/// the reciprocal of the squared length, `1 / (x² + y²)`, whenever the division
/// by the squared length is exact in both components.
pub proof fn lemma_normalized_dot_self(v: V2)
    requires
        v.divides_evenly(),
    ensures
        v.spec_normalized() matches Some(n) && n.spec_dot(n) == v.inverse_norm_squared(),
{
    let n = v.norm_squared();
    let x = v.x as int;
    let y = v.y as int;
    let s = ONE as int;
    let s2 = ONE_SQUARED as int;
    let qx = div_toward_zero(x * s2, n);
    let qy = div_toward_zero(y * s2, n);
    lemma_square_of_magnitude(x);
    lemma_square_of_magnitude(y);
    lemma_quotient_bound(magnitude(x), magnitude(y));
    lemma_quotient_bound(magnitude(y), magnitude(x));
    lemma_exact_quotient(x * s2, n);
    lemma_exact_quotient(y * s2, n);
    let d = qx * qx + qy * qy;
    assert(d * n == s2 * s2) by {
        assert((qx * n) * (qx * n) == qx * qx * (n * n)) by (nonlinear_arith);
        assert((qy * n) * (qy * n) == qy * qy * (n * n)) by (nonlinear_arith);
        assert((x * s2) * (x * s2) == x * x * (s2 * s2)) by (nonlinear_arith);
        assert((y * s2) * (y * s2) == y * y * (s2 * s2)) by (nonlinear_arith);
        assert(d * (n * n) == n * (s2 * s2)) by (nonlinear_arith)
            requires
                d == qx * qx + qy * qy,
                n == x * x + y * y,
                qx * qx * (n * n) == x * x * (s2 * s2),
                qy * qy * (n * n) == y * y * (s2 * s2),
        ;
        assert(d * n == s2 * s2) by (nonlinear_arith)
            requires
                d * (n * n) == n * (s2 * s2),
                n > 0,
        ;
    }
    assert(d >= 0) by (nonlinear_arith)
        requires
            d == qx * qx + qy * qy,
    ;
    lemma_scaled_quotient(d, n, s * s * s, s);
}

/// Normalizing any non-zero vector and then taking the dot product of the
/// result with itself never gives more than the reciprocal of the squared
/// length: rounding toward zero only shortens the normalized vector.
pub proof fn lemma_normalized_dot_self_at_most(v: V2)
    requires
        v.norm_squared() > 0,
    ensures
        v.spec_normalized() matches Some(n) && 0 <= n.spec_dot(n) <= v.inverse_norm_squared(),
{
    let n = v.norm_squared();
    let x = v.x as int;
    let y = v.y as int;
    let ax = magnitude(x);
    let ay = magnitude(y);
    let s = ONE as int;
    let s2 = ONE_SQUARED as int;
    let qx = (ax * s2) / n;
    let qy = (ay * s2) / n;
    lemma_square_of_magnitude(x);
    lemma_square_of_magnitude(y);
    lemma_quotient_bound(ax, ay);
    lemma_quotient_bound(ay, ax);
    let nx = clamp(div_toward_zero(x * s2, n));
    let ny = clamp(div_toward_zero(y * s2, n));
    lemma_square_of_magnitude(nx as int);
    lemma_square_of_magnitude(ny as int);
    let d = nx * nx + ny * ny;
    vstd::arithmetic::div_mod::lemma_fundamental_div_mod(ax * s2, n);
    vstd::arithmetic::div_mod::lemma_fundamental_div_mod(ay * s2, n);
    assert(d * n <= s2 * s2) by {
        assert(qx * n <= ax * s2 && qy * n <= ay * s2) by (nonlinear_arith)
            requires
                ax * s2 == n * qx + (ax * s2) % n,
                ay * s2 == n * qy + (ay * s2) % n,
                0 <= (ax * s2) % n,
                0 <= (ay * s2) % n,
        ;
        assert(qx * qx * (n * n) <= ax * ax * (s2 * s2)) by (nonlinear_arith)
            requires
                0 <= qx * n <= ax * s2,
        ;
        assert(qy * qy * (n * n) <= ay * ay * (s2 * s2)) by (nonlinear_arith)
            requires
                0 <= qy * n <= ay * s2,
        ;
        assert(d * (n * n) <= n * (s2 * s2)) by (nonlinear_arith)
            requires
                d == qx * qx + qy * qy,
                n == ax * ax + ay * ay,
                qx * qx * (n * n) <= ax * ax * (s2 * s2),
                qy * qy * (n * n) <= ay * ay * (s2 * s2),
        ;
        assert(d * n <= s2 * s2) by (nonlinear_arith)
            requires
                d * (n * n) <= n * (s2 * s2),
                n > 0,
        ;
    }
    assert(d >= 0) by (nonlinear_arith)
        requires
            d == qx * qx + qy * qy,
    ;
    lemma_scaled_quotient_at_most(d, n, s * s * s, s);
}

/// From `d * n <= c * s`, dividing `d` by `s` gives no more than dividing `c`
/// by `n` gives.
proof fn lemma_scaled_quotient_at_most(d: int, n: int, c: int, s: int)
    requires
        d >= 0,
        n > 0,
        c >= 0,
        s > 0,
        d * n <= c * s,
    ensures
        0 <= d / s <= c / n,
{
    let k = c / n;
    let r = c % n;
    let j = d / s;
    vstd::arithmetic::div_mod::lemma_fundamental_div_mod(c, n);
    vstd::arithmetic::div_mod::lemma_fundamental_div_mod(d, s);
    assert(0 <= j <= k) by (nonlinear_arith)
        requires
            d == s * j + d % s,
            0 <= d % s < s,
            c == n * k + r,
            0 <= r < n,
            d * n <= c * s,
            d >= 0,
            s > 0,
            n > 0,
    ;
}

/// Where `n` divides `a`, the quotient rounded toward zero is exact.
proof fn lemma_exact_quotient(a: int, n: int)
    requires
        n > 0,
        a % n == 0,
    ensures
        div_toward_zero(a, n) * n == a,
{
    vstd::arithmetic::div_mod::lemma_fundamental_div_mod(a, n);
    let k = a / n;
    assert(k * n == a) by (nonlinear_arith)
        requires
            a == n * k,
    ;
    if a < 0 {
        assert(-a == (-k) * n + 0) by (nonlinear_arith)
            requires
                k * n == a,
        ;
        vstd::arithmetic::div_mod::lemma_fundamental_div_mod_converse(-a, n, -k, 0);
    }
}

/// From `d * n == c * s`, dividing `d` by `s` gives what dividing `c` by `n`
/// gives.
proof fn lemma_scaled_quotient(d: int, n: int, c: int, s: int)
    requires
        d >= 0,
        n > 0,
        c >= 0,
        s > 0,
        d * n == c * s,
    ensures
        d / s == c / n,
{
    let k = c / n;
    let r = c % n;
    vstd::arithmetic::div_mod::lemma_fundamental_div_mod(c, n);
    let m = d - k * s;
    assert(m * n == r * s) by (nonlinear_arith)
        requires
            m == d - k * s,
            d * n == c * s,
            c == n * k + r,
    ;
    assert(0 <= m < s) by (nonlinear_arith)
        requires
            m * n == r * s,
            0 <= r < n,
            s > 0,
    ;
    vstd::arithmetic::div_mod::lemma_fundamental_div_mod_converse(d, s, k, m);
}

/// The square of a magnitude that an `i64` can have stays far below the end of
/// `u128`.
proof fn lemma_square_bound(a: int)
    requires
        0 <= a <= 0x8000_0000_0000_0000,
    ensures
        0 <= a * a <= 0x4000_0000_0000_0000_0000_0000_0000_0000,
{
    assert(0 <= a * a <= 0x8000_0000_0000_0000 * 0x8000_0000_0000_0000) by (nonlinear_arith)
        requires
            0 <= a <= 0x8000_0000_0000_0000,
    ;
}

/// A number and its magnitude have the same square.
proof fn lemma_square_of_magnitude(v: int)
    ensures
        magnitude(v) * magnitude(v) == v * v,
{
    assert((-v) * (-v) == v * v) by (nonlinear_arith);
}

/// Only the zero vector has squared length zero.
proof fn lemma_zero_norm(x: int, y: int)
    requires
        x * x + y * y == 0,
    ensures
        x == 0,
        y == 0,
{
    assert(x == 0 && y == 0) by (nonlinear_arith)
        requires
            x * x + y * y == 0,
    ;
}

/// A component divided by the squared length is at most 1.0 squared.
proof fn lemma_quotient_bound(a: int, b: int)
    requires
        0 <= a,
        0 <= b,
        a * a + b * b > 0,
    ensures
        0 <= (a * ONE_SQUARED) / (a * a + b * b) <= ONE_SQUARED,
{
    let n = a * a + b * b;
    assert(a <= n) by (nonlinear_arith)
        requires
            0 <= a,
            0 <= b,
            n == a * a + b * b,
    ;
    assert(0 <= (a * ONE_SQUARED) / n <= ONE_SQUARED) by (nonlinear_arith)
        requires
            0 <= a <= n,
            n > 0,
    ;
}

/// The product of two `i64` values fits in an `i128`, with room for a second.
proof fn lemma_product_bound(a: int, b: int)
    requires
        -0x8000_0000_0000_0000 <= a < 0x8000_0000_0000_0000,
        -0x8000_0000_0000_0000 <= b < 0x8000_0000_0000_0000,
    ensures
        -0x4000_0000_0000_0000_0000_0000_0000_0000 < a * b
            <= 0x4000_0000_0000_0000_0000_0000_0000_0000,
{
    assert(-0x4000_0000_0000_0000_0000_0000_0000_0000 < a * b
        <= 0x4000_0000_0000_0000_0000_0000_0000_0000) by (nonlinear_arith)
        requires
            -0x8000_0000_0000_0000 <= a < 0x8000_0000_0000_0000,
            -0x8000_0000_0000_0000 <= b < 0x8000_0000_0000_0000,
    ;
}

} // verus!
