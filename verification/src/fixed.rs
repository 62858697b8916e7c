//! 16.16 fixed-point arithmetic: the numeric carrier for all world-space
//! geometry in the renderer. A value is `raw` / 65536; products and
//! quotients round toward zero, like the hardware casts they replace.

use vstd::prelude::*;

verus! {

/// Scale of the representation: one world unit is this many raw steps.
pub const FX_SCALE: i64 = 65536;

/// Sentinel for "unreachable / infinitely far": far beyond any side distance
/// the traversal can accumulate, yet small enough that capped additions
/// never overflow.
pub const FX_INF: i64 = 0x2000_0000_0000;

/// Magnitude bound under which fixed-point products stay well inside `i64`.
pub const FX_SMALL: i64 = 0x40_0000_0000;

/// Truncating (round-toward-zero) division, the rounding performed by the
/// executable `/` operator on signed integers.
pub open spec fn tdiv(a: int, b: int) -> int {
    if a >= 0 {
        a / b
    } else {
        -((-a) / b)
    }
}

/// Raw value of the fixed-point product of raw values `a` and `b`.
pub open spec fn fx_mul_raw(a: int, b: int) -> int {
    tdiv(a * b, FX_SCALE as int)
}

/// Raw value of the fixed-point quotient of raw values `a` and `b`,
/// rounded toward zero.
pub open spec fn fx_div_raw(a: int, b: int) -> int {
    if b >= 0 {
        tdiv(a * (FX_SCALE as int), b)
    } else {
        -tdiv(a * (FX_SCALE as int), -b)
    }
}

/// Raw magnitudes small enough that any product of two of them, rescaled,
/// fits an `i64`.
pub open spec fn fx_small(a: int) -> bool {
    -FX_SMALL <= a <= FX_SMALL
}

/// A 16.16 fixed-point number; the represented value is `raw` / 65536.
#[derive(Clone, Copy, PartialEq, Eq, Structural, Debug)]
pub struct Fx {
    pub raw: i64,
}

/// `|a| <= aa` and `|b| <= bb` bound the product by `aa * bb`.
pub proof fn lemma_abs_mul(a: int, b: int, aa: int, bb: int)
    by (nonlinear_arith)
    requires
        -aa <= a <= aa,
        -bb <= b <= bb,
    ensures
        -(aa * bb) <= a * b <= aa * bb,
{
}

/// Truncating division by a positive divisor keeps a symmetric bound.
pub proof fn lemma_tdiv_range(p: int, m: int, s: int)
    requires
        0 < s,
        0 <= m,
        -m <= p <= m,
    ensures
        -(m / s) <= tdiv(p, s) <= m / s,
{
    vstd::arithmetic::div_mod::lemma_div_pos_is_pos(m, s);
    if p >= 0 {
        vstd::arithmetic::div_mod::lemma_div_is_ordered(p, m, s);
        vstd::arithmetic::div_mod::lemma_div_pos_is_pos(p, s);
    } else {
        vstd::arithmetic::div_mod::lemma_div_is_ordered(-p, m, s);
        vstd::arithmetic::div_mod::lemma_div_pos_is_pos(-p, s);
    }
}

/// Truncating remainder: the value the executable `%` operator leaves for
/// a positive divisor, carrying the dividend's sign.
pub open spec fn trem(a: int, b: int) -> int {
    a - b * tdiv(a, b)
}

/// The integer square root as a function: the greatest non-negative `r`
/// with `r * r <= n`.
pub open spec fn isqrt_spec(n: int) -> int
    decreases n,
{
    if n <= 0 {
        0
    } else {
        let p = 2 * isqrt_spec(n / 4);
        if (p + 1) * (p + 1) <= n {
            p + 1
        } else {
            p
        }
    }
}

/// The square-root function brackets its argument.
pub proof fn lemma_isqrt_spec_bracket(n: int)
    requires
        0 <= n,
    ensures
        0 <= isqrt_spec(n),
        isqrt_spec(n) * isqrt_spec(n) <= n,
        n < (isqrt_spec(n) + 1) * (isqrt_spec(n) + 1),
    decreases n,
{
    if n > 0 {
        lemma_isqrt_spec_bracket(n / 4);
        let q = isqrt_spec(n / 4);
        let p = 2 * q;
        vstd::arithmetic::div_mod::lemma_fundamental_div_mod(n, 4);
        assert(p * p <= n) by (nonlinear_arith)
            requires
                q * q <= n / 4,
                n == 4 * (n / 4) + n % 4,
                0 <= n % 4,
                p == 2 * q,
        ;
        assert(n < (p + 2) * (p + 2)) by (nonlinear_arith)
            requires
                n / 4 < (q + 1) * (q + 1),
                n == 4 * (n / 4) + n % 4,
                n % 4 < 4,
                p == 2 * q,
        ;
    }
}

/// Any value bracketed the same way equals the square-root function.
pub proof fn lemma_isqrt_unique(n: int, r: int)
    requires
        0 <= n,
        0 <= r,
        r * r <= n,
        n < (r + 1) * (r + 1),
    ensures
        r == isqrt_spec(n),
{
    lemma_isqrt_spec_bracket(n);
    let s = isqrt_spec(n);
    assert(r == s) by (nonlinear_arith)
        requires
            0 <= r,
            0 <= s,
            r * r <= n,
            n < (r + 1) * (r + 1),
            s * s <= n,
            n < (s + 1) * (s + 1),
    ;
}

/// Euclidean remainder by a positive divisor: the non-negative fractional
/// part of a possibly negative raw value.
pub fn floor_mod(a: i64, m: i64) -> (r: i64)
    requires
        1 <= m <= 65536,
        -0x4000_0000_0000_0000 <= a <= 0x4000_0000_0000_0000,
    ensures
        r == a as int % (m as int),
        0 <= r < m,
{
    let t: i64 = a % m;
    if t < 0 {
        proof {
            let n: int = -(a as int);
            let qn = n / (m as int);
            let rn = n % (m as int);
            vstd::arithmetic::div_mod::lemma_fundamental_div_mod(n, m as int);
            assert(a as int == (-qn - 1) * (m as int) + ((m as int) - rn)) by (nonlinear_arith)
                requires
                    n == (m as int) * qn + rn,
                    n == -(a as int),
            ;
            vstd::arithmetic::div_mod::lemma_fundamental_div_mod_converse(
                a as int,
                m as int,
                -qn - 1,
                (m as int) - rn,
            );
        }
        t + m
    } else {
        proof {
            if a < 0 {
                let n: int = -(a as int);
                let qn = n / (m as int);
                let rn = n % (m as int);
                vstd::arithmetic::div_mod::lemma_fundamental_div_mod(n, m as int);
                assert(a as int == (-qn) * (m as int) + 0) by (nonlinear_arith)
                    requires
                        n == (m as int) * qn + rn,
                        n == -(a as int),
                        rn == 0,
                ;
                vstd::arithmetic::div_mod::lemma_fundamental_div_mod_converse(
                    a as int,
                    m as int,
                    -qn,
                    0,
                );
            }
        }
        t
    }
}

impl Fx {
    /// The fixed-point zero.
    pub fn zero() -> (r: Fx)
        ensures
            r.raw == 0,
    {
        Fx { raw: 0 }
    }

    /// Embeds a whole number of world units.
    pub fn from_units(v: i64) -> (r: Fx)
        requires
            -0x40_0000 <= v <= 0x40_0000,
        ensures
            r.raw == v * FX_SCALE,
            fx_small(r.raw as int),
    {
        Fx { raw: v * FX_SCALE }
    }

    /// Componentwise sum.
    pub fn plus(self, o: Fx) -> (r: Fx)
        requires
            i64::MIN <= self.raw + o.raw <= i64::MAX,
        ensures
            r.raw == self.raw + o.raw,
    {
        Fx { raw: self.raw + o.raw }
    }

    /// Componentwise difference.
    pub fn minus(self, o: Fx) -> (r: Fx)
        requires
            i64::MIN <= self.raw - o.raw <= i64::MAX,
        ensures
            r.raw == self.raw - o.raw,
    {
        Fx { raw: self.raw - o.raw }
    }

    /// Negation.
    pub fn neg(self) -> (r: Fx)
        requires
            self.raw != i64::MIN,
        ensures
            r.raw == -self.raw,
    {
        Fx { raw: -self.raw }
    }

    /// Magnitude.
    pub fn abs(self) -> (r: Fx)
        requires
            self.raw != i64::MIN,
        ensures
            r.raw == if self.raw >= 0 { self.raw as int } else { -self.raw },
    {
        if self.raw >= 0 {
            self
        } else {
            Fx { raw: -self.raw }
        }
    }

    /// Fixed-point product, rounded toward zero.
    pub fn times(self, o: Fx) -> (r: Fx)
        requires
            fx_small(self.raw as int),
            fx_small(o.raw as int),
        ensures
            r.raw == fx_mul_raw(self.raw as int, o.raw as int),
            -0x1000_0000_0000_0000 <= r.raw <= 0x1000_0000_0000_0000,
    {
        proof {
            lemma_abs_mul(self.raw as int, o.raw as int, FX_SMALL as int, FX_SMALL as int);
            lemma_tdiv_range(
                self.raw as int * o.raw as int,
                FX_SMALL as int * FX_SMALL as int,
                FX_SCALE as int,
            );
        }
        let p: i128 = (self.raw as i128) * (o.raw as i128);
        let q: i128 = p / 65536i128;
        Fx { raw: q as i64 }
    }

    /// Fixed-point quotient, rounded toward zero.
    pub fn over(self, o: Fx) -> (r: Fx)
        requires
            fx_small(self.raw as int),
            o.raw != 0,
        ensures
            r.raw == fx_div_raw(self.raw as int, o.raw as int),
            -0x4000_0000_0000_0000 <= r.raw <= 0x4000_0000_0000_0000,
    {
        let n: i128 = (self.raw as i128) * 65536i128;
        let d: i128 = o.raw as i128;
        proof {
            lemma_abs_mul(self.raw as int, FX_SCALE as int, FX_SMALL as int, FX_SCALE as int);
            let m = FX_SMALL as int * FX_SCALE as int;
            let dd: int = if d >= 0 { d as int } else { -(d as int) };
            lemma_tdiv_range(n as int, m, dd);
            vstd::arithmetic::div_mod::lemma_div_nonincreasing(m, dd);
        }
        let q: i128 = if d >= 0 {
            n / d
        } else {
            -(n / -d)
        };
        Fx { raw: q as i64 }
    }

    /// Sum capped at the far sentinel; keeps accumulated side distances
    /// bounded without overflow.
    pub fn plus_capped(self, o: Fx) -> (r: Fx)
        requires
            0 <= self.raw <= FX_INF,
            0 <= o.raw <= FX_INF,
        ensures
            r.raw == if self.raw + o.raw <= FX_INF {
                self.raw + o.raw
            } else {
                FX_INF as int
            },
    {
        let s: i64 = self.raw + o.raw;
        if s <= FX_INF {
            Fx { raw: s }
        } else {
            Fx { raw: FX_INF }
        }
    }

    /// Whole part of a non-negative value.
    pub fn floor_units(self) -> (r: i64)
        requires
            self.raw >= 0,
        ensures
            r == self.raw as int / FX_SCALE as int,
            0 <= r <= self.raw,
    {
        proof {
            vstd::arithmetic::div_mod::lemma_div_pos_is_pos(self.raw as int, FX_SCALE as int);
            vstd::arithmetic::div_mod::lemma_div_nonincreasing(self.raw as int, FX_SCALE as int);
        }
        self.raw / FX_SCALE
    }

    /// Fractional part of a non-negative value, as a raw count in [0, 65536).
    pub fn frac_raw(self) -> (r: i64)
        requires
            self.raw >= 0,
        ensures
            r == self.raw as int % FX_SCALE as int,
            0 <= r < FX_SCALE,
            self.raw as int == FX_SCALE as int * (self.raw as int / FX_SCALE as int) + r,
    {
        proof {
            vstd::arithmetic::div_mod::lemma_fundamental_div_mod(self.raw as int, FX_SCALE as int);
        }
        self.raw % FX_SCALE
    }
}

/// Integer square root: the greatest `r` with `r * r <= n`.
pub fn isqrt64(n: u64) -> (r: u64)
    ensures
        r * r <= n,
        n < (r + 1) * (r + 1),
        r < 4294967296,
        r == isqrt_spec(n as int),
{
    if n == 0 {
        proof {
            lemma_isqrt_unique(0, 0);
        }
        return 0;
    }
    let mut lo: u64 = 0;
    let mut hi: u64 = 4294967296;
    while lo + 1 < hi
        invariant
            lo < hi,
            hi <= 4294967296,
            lo * lo <= n,
            n < hi * hi,
        decreases hi - lo,
    {
        let mid: u64 = lo + (hi - lo) / 2;
        proof {
            lemma_abs_mul(mid as int, mid as int, 0x1_0000_0000, 0x1_0000_0000);
        }
        let sq: u128 = (mid as u128) * (mid as u128);
        if sq <= (n as u128) {
            lo = mid;
        } else {
            hi = mid;
        }
    }
    proof {
        lemma_isqrt_unique(n as int, lo as int);
    }
    lo
}

} // verus!
