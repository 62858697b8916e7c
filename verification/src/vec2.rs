//! Two-component vectors over the fixed-point scalar: the value type for
//! positions, directions and projection planes.

use vstd::prelude::*;
use crate::fixed::{
    Fx, FX_SCALE, FX_SMALL, fx_mul_raw, fx_small, isqrt64, lemma_abs_mul, lemma_tdiv_range, tdiv,
};

verus! {

/// A pair (x, y) of a scalar carrier; componentwise operations throughout.
#[derive(Clone, Copy, Debug)]
pub struct Vec2<T> {
    pub x: T,
    pub y: T,
}

/// Both components within the magnitude bound that keeps products in range.
pub open spec fn v_small(v: Vec2<Fx>) -> bool {
    fx_small(v.x.raw as int) && fx_small(v.y.raw as int)
}

/// Squared length of a fixed-point vector, as a raw fixed-point count.
pub open spec fn length_sq_raw(v: Vec2<Fx>) -> int {
    fx_mul_raw(v.x.raw as int, v.x.raw as int) + fx_mul_raw(v.y.raw as int, v.y.raw as int)
}

/// The raw length of the raw difference vector (dx, dy): the integer
/// square root of the rescaled squared length.
pub open spec fn fx_dist_raw(dx: int, dy: int) -> int {
    crate::fixed::isqrt_spec((fx_mul_raw(dx, dx) + fx_mul_raw(dy, dy)) * (FX_SCALE as int))
}

/// A raw distance from in-range differences is a non-negative value of at
/// most one full grid span.
pub proof fn lemma_fx_dist_raw_bounds(dx: int, dy: int)
    requires
        -0x8000_0000 <= dx <= 0x8000_0000,
        -0x8000_0000 <= dy <= 0x8000_0000,
    ensures
        0 <= fx_dist_raw(dx, dy) <= 0x1_0000_0000,
{
    lemma_abs_mul(dx, dx, 0x8000_0000, 0x8000_0000);
    lemma_abs_mul(dy, dy, 0x8000_0000, 0x8000_0000);
    lemma_fx_sq_nonneg(dx);
    lemma_fx_sq_nonneg(dy);
    lemma_tdiv_range(dx * dx, 0x4000_0000_0000_0000, FX_SCALE as int);
    lemma_tdiv_range(dy * dy, 0x4000_0000_0000_0000, FX_SCALE as int);
    let n = (fx_mul_raw(dx, dx) + fx_mul_raw(dy, dy)) * (FX_SCALE as int);
    crate::fixed::lemma_isqrt_spec_bracket(n);
    let r = crate::fixed::isqrt_spec(n);
    assert(r <= 0x1_0000_0000) by (nonlinear_arith)
        requires
            0 <= r,
            r * r <= n,
            n < 0x1_0000_0000_0000_0000,
    ;
}

/// Squared length of a vector's raw components, without rescaling.
pub open spec fn norm_sq(v: Vec2<Fx>) -> int {
    v.x.raw * v.x.raw + v.y.raw * v.y.raw
}

/// Raw x component after rotating raw vector (x, y) by the angle with raw
/// cosine `c` and raw sine `s`: the exact matrix product, rounded once.
pub open spec fn rot_x_raw(x: int, y: int, c: int, s: int) -> int {
    tdiv(x * c - y * s, FX_SCALE as int)
}

/// Raw y component of the same rotation.
pub open spec fn rot_y_raw(x: int, y: int, c: int, s: int) -> int {
    tdiv(x * s + y * c, FX_SCALE as int)
}

/// Rotation by (c, s) followed by rotation by (c, -s) gives back the
/// original vector, scaled by c*c + s*s: over the exact (unrounded)
/// products, rotation is invertible, and for a unit angle vector the
/// composition is the identity at the squared fixed-point scale.
pub proof fn lemma_rotate_inverse_exact(x: int, y: int, c: int, s: int)
    ensures
        (x * c - y * s) * c - (x * s + y * c) * (-s) == (c * c + s * s) * x,
        (x * c - y * s) * (-s) + (x * s + y * c) * c == (c * c + s * s) * y,
{
    let p = x * c;
    let q = y * s;
    let u = x * s;
    let v = y * c;
    assert((p - q) * c - (u + v) * (-s) == p * c - q * c + u * s + v * s) by (nonlinear_arith);
    assert((p - q) * (-s) + (u + v) * c == -(p * s) + q * s + u * c + v * c) by (nonlinear_arith);
    assert(p * c == x * (c * c)) by (nonlinear_arith)
        requires
            p == x * c,
    ;
    assert(u * s == x * (s * s)) by (nonlinear_arith)
        requires
            u == x * s,
    ;
    assert(q * c == v * s) by (nonlinear_arith)
        requires
            q == y * s,
            v == y * c,
    ;
    assert(q * s == y * (s * s)) by (nonlinear_arith)
        requires
            q == y * s,
    ;
    assert(v * c == y * (c * c)) by (nonlinear_arith)
        requires
            v == y * c,
    ;
    assert(p * s == u * c) by (nonlinear_arith)
        requires
            p == x * c,
            u == x * s,
    ;
    assert(x * (c * c) + x * (s * s) == (c * c + s * s) * x) by (nonlinear_arith);
    assert(y * (s * s) + y * (c * c) == (c * c + s * s) * y) by (nonlinear_arith);
}

/// Rotation scales the exact squared length by exactly c*c + s*s: over the
/// unrounded products, rotation by a unit angle vector preserves length.
pub proof fn lemma_rotate_norm_exact(x: int, y: int, c: int, s: int)
    ensures
        (x * c - y * s) * (x * c - y * s) + (x * s + y * c) * (x * s + y * c) == (x * x + y * y) * (
        c * c + s * s),
{
    let p = x * c;
    let q = y * s;
    let u = x * s;
    let v = y * c;
    assert((p - q) * (p - q) + (u + v) * (u + v) == p * p + q * q + u * u + v * v - 2 * (p * q) + 2
        * (u * v)) by (nonlinear_arith);
    assert(p * q == u * v) by (nonlinear_arith)
        requires
            p == x * c,
            q == y * s,
            u == x * s,
            v == y * c,
    ;
    assert((x * x) * (c * c) == p * p) by (nonlinear_arith)
        requires
            p == x * c,
    ;
    assert((x * x) * (s * s) == u * u) by (nonlinear_arith)
        requires
            u == x * s,
    ;
    assert((y * y) * (c * c) == v * v) by (nonlinear_arith)
        requires
            v == y * c,
    ;
    assert((y * y) * (s * s) == q * q) by (nonlinear_arith)
        requires
            q == y * s,
    ;
    let big_a = x * x;
    let big_b = y * y;
    let big_c = c * c;
    let big_d = s * s;
    assert((big_a + big_b) * (big_c + big_d) == big_a * big_c + big_a * big_d + big_b * big_c
        + big_b * big_d) by (nonlinear_arith);
}

/// Rounding included, rotating by an exact unit angle vector and then by
/// its opposite returns each component to within two raw steps of its
/// original value: the fixed-point rotation is invertible up to rounding.
pub proof fn lemma_rotate_round_trip(x: int, y: int, c: int, s: int)
    requires
        c * c + s * s == FX_SCALE as int * FX_SCALE as int,
    ensures
        ({
            let x1 = rot_x_raw(x, y, c, s);
            let y1 = rot_y_raw(x, y, c, s);
            let x2 = rot_x_raw(x1, y1, c, -s);
            let y2 = rot_y_raw(x1, y1, c, -s);
            -2 <= x2 - x <= 2 && -2 <= y2 - y <= 2
        }),
{
    let sc = FX_SCALE as int;
    lemma_norm_component(c, s, sc);
    let a = x * c - y * s;
    let b = x * s + y * c;
    let x1 = rot_x_raw(x, y, c, s);
    let y1 = rot_y_raw(x, y, c, s);
    let r1 = a - sc * x1;
    let r2 = b - sc * y1;
    lemma_tdiv_rem(a, sc);
    lemma_tdiv_rem(b, sc);
    lemma_rotate_inverse_exact(x, y, c, s);
    let u = x1 * c - y1 * (-s);
    let v = x1 * (-s) + y1 * c;
    let x2 = rot_x_raw(x1, y1, c, -s);
    let y2 = rot_y_raw(x1, y1, c, -s);
    let r3 = u - sc * x2;
    let r4 = v - sc * y2;
    lemma_tdiv_rem(u, sc);
    lemma_tdiv_rem(v, sc);
    assert(sc * u == (a - r1) * c + (b - r2) * s) by (nonlinear_arith)
        requires
            sc * x1 == a - r1,
            sc * y1 == b - r2,
            u == x1 * c - y1 * (-s),
    ;
    assert((a - r1) * c + (b - r2) * s == (a * c + b * s) - (r1 * c + r2 * s))
        by (nonlinear_arith);
    assert(a * c + b * s == x * (sc * sc)) by (nonlinear_arith)
        requires
            a == x * c - y * s,
            b == x * s + y * c,
            c * c + s * s == sc * sc,
    ;
    assert(sc * (sc * x2) == sc * u - sc * r3) by (nonlinear_arith)
        requires
            sc * x2 == u - r3,
    ;
    assert(-(3 * (sc * sc)) < sc * (sc * x2) - sc * (sc * x) < 3 * (sc * sc)) by (nonlinear_arith)
        requires
            sc * (sc * x2) == x * (sc * sc) - (r1 * c + r2 * s) - sc * r3,
            -sc < r1 < sc,
            -sc < r2 < sc,
            -sc < r3 < sc,
            -sc <= c <= sc,
            -sc <= s <= sc,
            sc == 65536,
    ;
    assert(-2 <= x2 - x <= 2) by (nonlinear_arith)
        requires
            -(3 * (sc * sc)) < sc * (sc * x2) - sc * (sc * x) < 3 * (sc * sc),
            sc == 65536,
    ;
    assert(sc * v == -((a - r1) * s) + (b - r2) * c) by (nonlinear_arith)
        requires
            sc * x1 == a - r1,
            sc * y1 == b - r2,
            v == x1 * (-s) + y1 * c,
    ;
    assert(-((a - r1) * s) + (b - r2) * c == (-(a * s) + b * c) + (r1 * s - r2 * c))
        by (nonlinear_arith);
    assert(-(a * s) + b * c == y * (sc * sc)) by (nonlinear_arith)
        requires
            a == x * c - y * s,
            b == x * s + y * c,
            c * c + s * s == sc * sc,
    ;
    assert(sc * (sc * y2) == sc * v - sc * r4) by (nonlinear_arith)
        requires
            sc * y2 == v - r4,
    ;
    assert(-(3 * (sc * sc)) < sc * (sc * y2) - sc * (sc * y) < 3 * (sc * sc)) by (nonlinear_arith)
        requires
            sc * (sc * y2) == y * (sc * sc) + (r1 * s - r2 * c) - sc * r4,
            -sc < r1 < sc,
            -sc < r2 < sc,
            -sc < r4 < sc,
            -sc <= c <= sc,
            -sc <= s <= sc,
            sc == 65536,
    ;
    assert(-2 <= y2 - y <= 2) by (nonlinear_arith)
        requires
            -(3 * (sc * sc)) < sc * (sc * y2) - sc * (sc * y) < 3 * (sc * sc),
            sc == 65536,
    ;
}

/// A truncated quotient misses its dividend by less than the divisor.
proof fn lemma_tdiv_rem(a: int, s: int)
    requires
        1 <= s,
    ensures
        -s < a - s * tdiv(a, s) < s,
{
    if a >= 0 {
        vstd::arithmetic::div_mod::lemma_fundamental_div_mod(a, s);
        vstd::arithmetic::div_mod::lemma_remainder(a, s);
    } else {
        vstd::arithmetic::div_mod::lemma_fundamental_div_mod(-a, s);
        vstd::arithmetic::div_mod::lemma_remainder(-a, s);
        assert(s * tdiv(a, s) == -(s * ((-a) / s))) by (nonlinear_arith)
            requires
                tdiv(a, s) == -((-a) / s),
        ;
    }
}

/// Squaring is monotone on non-negative values.
proof fn lemma_sq_le(a: int, b: int)
    by (nonlinear_arith)
    requires
        0 <= a <= b,
    ensures
        a * a <= b * b,
{
}

/// A truncated quotient, scaled back up and squared, never exceeds the
/// square of the dividend.
proof fn lemma_tdiv_sq(p: int, s: int)
    requires
        1 <= s,
    ensures
        tdiv(p, s) * tdiv(p, s) * (s * s) <= p * p,
{
    let m: int = if p >= 0 {
        p
    } else {
        -p
    };
    let q = m / s;
    vstd::arithmetic::div_mod::lemma_remainder_lower(m, s);
    vstd::arithmetic::div_mod::lemma_div_pos_is_pos(m, s);
    lemma_sq_le(q * s, m);
    assert(q * s * (q * s) == q * q * (s * s)) by (nonlinear_arith);
    assert(m * m == p * p) by (nonlinear_arith)
        requires
            m == if p >= 0 {
                p
            } else {
                -p
            },
    ;
    assert(tdiv(p, s) * tdiv(p, s) == q * q) by (nonlinear_arith)
        requires
            tdiv(p, s) == q || tdiv(p, s) == -q,
    ;
}

/// Rotation by an angle vector no longer than one never grows a vector's
/// raw norm, rounding included: the bound every camera basis keeps under
/// user rotation.
pub proof fn lemma_rotate_keeps_norm(x: int, y: int, c: int, s: int, bb: int)
    requires
        0 <= bb,
        x * x + y * y <= bb * bb,
        c * c + s * s <= FX_SCALE as int * FX_SCALE as int,
    ensures
        ({
            let nx = rot_x_raw(x, y, c, s);
            let ny = rot_y_raw(x, y, c, s);
            nx * nx + ny * ny <= bb * bb
        }),
{
    let ss: int = FX_SCALE as int;
    let a = x * c - y * s;
    let b = x * s + y * c;
    let nx = rot_x_raw(x, y, c, s);
    let ny = rot_y_raw(x, y, c, s);
    lemma_tdiv_sq(a, ss);
    lemma_tdiv_sq(b, ss);
    lemma_rotate_norm_exact(x, y, c, s);
    assert(0 <= x * x + y * y && 0 <= c * c + s * s) by (nonlinear_arith);
    assert((x * x + y * y) * (c * c + s * s) <= (bb * bb) * (ss * ss)) by (nonlinear_arith)
        requires
            0 <= x * x + y * y <= bb * bb,
            0 <= c * c + s * s <= ss * ss,
    ;
    assert(nx * nx + ny * ny <= bb * bb) by (nonlinear_arith)
        requires
            nx * nx * (ss * ss) <= a * a,
            ny * ny * (ss * ss) <= b * b,
            a * a + b * b <= (bb * bb) * (ss * ss),
            ss == 65536,
    ;
}

/// A norm bound gives the same bound on each component.
pub proof fn lemma_norm_component(x: int, y: int, bb: int)
    by (nonlinear_arith)
    requires
        0 <= bb,
        x * x + y * y <= bb * bb,
    ensures
        -bb <= x <= bb,
        -bb <= y <= bb,
{
}

/// A rescaled square is never negative.
pub proof fn lemma_fx_sq_nonneg(a: int)
    ensures
        0 <= fx_mul_raw(a, a),
{
    assert(0 <= a * a) by (nonlinear_arith);
    vstd::arithmetic::div_mod::lemma_div_pos_is_pos(a * a, FX_SCALE as int);
}

impl Vec2<Fx> {
    /// The zero vector.
    pub fn new() -> (r: Vec2<Fx>)
        ensures
            r.x.raw == 0,
            r.y.raw == 0,
    {
        Vec2 { x: Fx { raw: 0 }, y: Fx { raw: 0 } }
    }

    /// Componentwise sum.
    pub fn plus(&self, o: &Vec2<Fx>) -> (r: Vec2<Fx>)
        requires
            i64::MIN <= self.x.raw + o.x.raw <= i64::MAX,
            i64::MIN <= self.y.raw + o.y.raw <= i64::MAX,
        ensures
            r.x.raw == self.x.raw + o.x.raw,
            r.y.raw == self.y.raw + o.y.raw,
    {
        Vec2 { x: Fx { raw: self.x.raw + o.x.raw }, y: Fx { raw: self.y.raw + o.y.raw } }
    }

    /// Componentwise difference.
    pub fn minus(&self, o: &Vec2<Fx>) -> (r: Vec2<Fx>)
        requires
            i64::MIN <= self.x.raw - o.x.raw <= i64::MAX,
            i64::MIN <= self.y.raw - o.y.raw <= i64::MAX,
        ensures
            r.x.raw == self.x.raw - o.x.raw,
            r.y.raw == self.y.raw - o.y.raw,
    {
        Vec2 { x: Fx { raw: self.x.raw - o.x.raw }, y: Fx { raw: self.y.raw - o.y.raw } }
    }

    /// Scales both components by a fixed-point factor.
    pub fn scale(&self, s: Fx) -> (r: Vec2<Fx>)
        requires
            v_small(*self),
            fx_small(s.raw as int),
        ensures
            r.x.raw == fx_mul_raw(self.x.raw as int, s.raw as int),
            r.y.raw == fx_mul_raw(self.y.raw as int, s.raw as int),
            -0x1000_0000_0000_0000 <= r.x.raw <= 0x1000_0000_0000_0000,
            -0x1000_0000_0000_0000 <= r.y.raw <= 0x1000_0000_0000_0000,
    {
        Vec2 { x: self.x.times(s), y: self.y.times(s) }
    }

    /// Rotates counter-clockwise by the angle whose cosine and sine are
    /// given: the standard rotation matrix, each component rounded to the
    /// fixed-point grid once.
    pub fn rotate(&mut self, cos: Fx, sin: Fx)
        requires
            v_small(*old(self)),
            fx_small(cos.raw as int),
            fx_small(sin.raw as int),
        ensures
            final(self).x.raw == rot_x_raw(
                old(self).x.raw as int,
                old(self).y.raw as int,
                cos.raw as int,
                sin.raw as int,
            ),
            final(self).y.raw == rot_y_raw(
                old(self).x.raw as int,
                old(self).y.raw as int,
                cos.raw as int,
                sin.raw as int,
            ),
    {
        proof {
            lemma_abs_mul(self.x.raw as int, cos.raw as int, FX_SMALL as int, FX_SMALL as int);
            lemma_abs_mul(self.y.raw as int, sin.raw as int, FX_SMALL as int, FX_SMALL as int);
            lemma_abs_mul(self.x.raw as int, sin.raw as int, FX_SMALL as int, FX_SMALL as int);
            lemma_abs_mul(self.y.raw as int, cos.raw as int, FX_SMALL as int, FX_SMALL as int);
            lemma_tdiv_range(
                self.x.raw as int * cos.raw as int - self.y.raw as int * sin.raw as int,
                2 * (FX_SMALL as int * FX_SMALL as int),
                FX_SCALE as int,
            );
            lemma_tdiv_range(
                self.x.raw as int * sin.raw as int + self.y.raw as int * cos.raw as int,
                2 * (FX_SMALL as int * FX_SMALL as int),
                FX_SCALE as int,
            );
        }
        let xx: i128 = self.x.raw as i128;
        let yy: i128 = self.y.raw as i128;
        let cc: i128 = cos.raw as i128;
        let ss: i128 = sin.raw as i128;
        let nx: i128 = (xx * cc - yy * ss) / 65536i128;
        let ny: i128 = (xx * ss + yy * cc) / 65536i128;
        self.x = Fx { raw: nx as i64 };
        self.y = Fx { raw: ny as i64 };
    }

    /// Squared length.
    pub fn length_squared(&self) -> (r: Fx)
        requires
            v_small(*self),
        ensures
            r.raw == length_sq_raw(*self),
            0 <= r.raw,
    {
        proof {
            lemma_fx_sq_nonneg(self.x.raw as int);
            lemma_fx_sq_nonneg(self.y.raw as int);
        }
        self.x.times(self.x).plus(self.y.times(self.y))
    }

    /// Length: the integer square root of the squared length, carried back
    /// to the fixed-point scale.
    pub fn length(&self) -> (r: Fx)
        requires
            -0x8000_0000 <= self.x.raw <= 0x8000_0000,
            -0x8000_0000 <= self.y.raw <= 0x8000_0000,
        ensures
            0 <= r.raw <= 0x1_0000_0000,
            r.raw * r.raw <= length_sq_raw(*self) * FX_SCALE,
            length_sq_raw(*self) * FX_SCALE < (r.raw + 1) * (r.raw + 1),
            r.raw == fx_dist_raw(self.x.raw as int, self.y.raw as int),
    {
        proof {
            lemma_abs_mul(self.x.raw as int, self.x.raw as int, 0x8000_0000, 0x8000_0000);
            lemma_abs_mul(self.y.raw as int, self.y.raw as int, 0x8000_0000, 0x8000_0000);
            lemma_tdiv_range(
                self.x.raw as int * self.x.raw as int,
                0x4000_0000_0000_0000,
                FX_SCALE as int,
            );
            lemma_tdiv_range(
                self.y.raw as int * self.y.raw as int,
                0x4000_0000_0000_0000,
                FX_SCALE as int,
            );
        }
        let sq: Fx = self.length_squared();
        let n: u64 = (sq.raw as u64) * 65536u64;
        let root: u64 = isqrt64(n);
        Fx { raw: root as i64 }
    }

    /// Truncates both components to whole grid coordinates. The caller must
    /// ensure the components are non-negative; grid positions always are.
    pub fn as_usize(&self) -> (r: Vec2<usize>)
        requires
            0 <= self.x.raw <= FX_SMALL,
            0 <= self.y.raw <= FX_SMALL,
        ensures
            r.x == self.x.raw as int / FX_SCALE as int,
            r.y == self.y.raw as int / FX_SCALE as int,
            r.x <= self.x.raw,
            r.y <= self.y.raw,
    {
        let fx: i64 = self.x.floor_units();
        let fy: i64 = self.y.floor_units();
        Vec2 { x: fx as usize, y: fy as usize }
    }
}

} // verus!
