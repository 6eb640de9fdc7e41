//! Fixed-point scalars.
//!
//! A quantity is stored as an `i64` count of `1/FX_SCALE` units. Results of
//! arithmetic are saturated into `[-FX_LIMIT, FX_LIMIT]` and quotients are
//! rounded toward zero, so every operation is total and its exact result is
//! stated in its contract. Keeping all stored magnitudes at or below
//! `FX_LIMIT` (an eighth of the `i64` range) lets the geometric predicates
//! evaluate products of coordinate differences exactly in 128-bit arithmetic.

use vstd::prelude::*;

verus! {

/// Number of stored units that make one whole unit (1.0).
pub const FX_SCALE: i64 = 100000;

/// Largest magnitude a stored scalar may have: 2^61 - 1.
pub const FX_LIMIT: i64 = 0x2000_0000_0000_0000 - 1;

/// A saturating, truncating fixed-point number: `bits / FX_SCALE` units.
#[derive(Clone, Copy, Debug, PartialEq, Eq, Structural)]
pub struct Fx {
    pub bits: i64,
}

impl View for Fx {
    type V = int;

    open spec fn view(&self) -> int {
        self.bits as int
    }
}

/// The stored magnitude is within the saturation range.
pub open spec fn fx_ok(b: int) -> bool {
    -FX_LIMIT <= b <= FX_LIMIT
}

/// Saturate a mathematical result into the stored range.
pub open spec fn clip(v: int) -> int {
    if v > FX_LIMIT as int {
        FX_LIMIT as int
    } else if v < -FX_LIMIT as int {
        -FX_LIMIT as int
    } else {
        v
    }
}

pub open spec fn iabs(a: int) -> int {
    if a >= 0 {
        a
    } else {
        -a
    }
}

/// Quotient rounded toward zero, the rounding used by all scalar division.
pub open spec fn tdiv(a: int, b: int) -> int
    recommends
        b != 0,
{
    if (a >= 0) == (b >= 0) {
        iabs(a) / iabs(b)
    } else {
        -(iabs(a) / iabs(b))
    }
}

pub open spec fn fx_add(a: int, b: int) -> int {
    clip(a + b)
}

pub open spec fn fx_sub(a: int, b: int) -> int {
    clip(a - b)
}

pub open spec fn fx_neg(a: int) -> int {
    clip(-a)
}

pub open spec fn fx_mul(a: int, b: int) -> int {
    clip(tdiv(a * b, FX_SCALE as int))
}

/// Division by zero yields zero; callers that must not divide by zero test first.
pub open spec fn fx_div(a: int, b: int) -> int {
    if b == 0 {
        0
    } else {
        clip(tdiv(a * FX_SCALE, b))
    }
}

/// Largest `r >= 0` with `r * r <= n` (0 for negative `n`).
pub open spec fn sqrt_floor(n: int) -> int
    decreases n,
{
    if n <= 0 {
        0
    } else {
        let r = sqrt_floor(n - 1);
        if (r + 1) * (r + 1) <= n {
            r + 1
        } else {
            r
        }
    }
}

/// `sqrt_floor` is characterised by `r*r <= n < (r+1)*(r+1)`.
pub proof fn lemma_sqrt_floor(n: int)
    requires
        n >= 0,
    ensures
        0 <= sqrt_floor(n),
        sqrt_floor(n) * sqrt_floor(n) <= n,
        n < (sqrt_floor(n) + 1) * (sqrt_floor(n) + 1),
    decreases n,
{
    if n == 0 {
    } else {
        lemma_sqrt_floor(n - 1);
        let r = sqrt_floor(n - 1);
        if (r + 1) * (r + 1) <= n {
            assert(n < (r + 2) * (r + 2)) by (nonlinear_arith)
                requires
                    r >= 0,
                    n - 1 < (r + 1) * (r + 1),
                    (r + 1) * (r + 1) <= n;
        }
    }
}

/// Any `r` satisfying the square-root characterisation equals `sqrt_floor(n)`.
pub proof fn lemma_sqrt_floor_unique(n: int, r: int)
    requires
        n >= 0,
        0 <= r,
        r * r <= n,
        n < (r + 1) * (r + 1),
    ensures
        r == sqrt_floor(n),
{
    lemma_sqrt_floor(n);
    let s = sqrt_floor(n);
    if r < s {
        assert((r + 1) * (r + 1) <= s * s) by (nonlinear_arith)
            requires
                0 <= r,
                r + 1 <= s;
    }
    if s < r {
        assert((s + 1) * (s + 1) <= r * r) by (nonlinear_arith)
            requires
                0 <= s,
                s + 1 <= r;
    }
}

/// The product of two `i64` values stays within `i128`.
pub proof fn lemma_i64_prod_in_i128(a: int, b: int)
    by (nonlinear_arith)
    requires
        -0x8000_0000_0000_0000 <= a <= 0x7fff_ffff_ffff_ffff,
        -0x8000_0000_0000_0000 <= b <= 0x7fff_ffff_ffff_ffff,
    ensures
        -0x4000_0000_0000_0000_0000_0000_0000_0000 <= a * b
            <= 0x4000_0000_0000_0000_0000_0000_0000_0000,
{
}

/// A product of factors bounded by `m` is bounded by `m * m`; with `m` at
/// 2^62 (the largest difference of two in-range scalars) products and their
/// two-term sums stay far inside `i128`.
pub proof fn lemma_prod_bound(a: int, b: int, m: int)
    by (nonlinear_arith)
    requires
        0 <= m,
        -m <= a <= m,
        -m <= b <= m,
    ensures
        -(m * m) <= a * b <= m * m,
{
}

/// Scaling by a zero factor yields zero exactly.
pub proof fn lemma_fx_mul_zero(a: int)
    ensures
        fx_mul(a, 0) == 0,
{
    assert(a * 0 == 0) by (nonlinear_arith);
}

/// A saturating product of non-negative factors is non-negative.
pub proof fn lemma_fx_mul_nonneg(a: int, b: int)
    requires
        a >= 0,
        b >= 0,
    ensures
        fx_mul(a, b) >= 0,
{
    assert(a * b >= 0) by (nonlinear_arith)
        requires
            a >= 0,
            b >= 0;
}

/// The square of a value below 2^64 stays within `u128`.
proof fn lemma_sq_fits_u128(m: int)
    by (nonlinear_arith)
    requires
        0 <= m,
        m < 0x1_0000_0000_0000_0000,
    ensures
        m * m <= 0xffff_ffff_ffff_ffff_ffff_ffff_ffff_ffff,
{
}

/// 2^64 squared exceeds every `u128` value.
proof fn lemma_sq_2_64_exceeds_u128()
    by (nonlinear_arith)
    ensures
        0x1_0000_0000_0000_0000int * 0x1_0000_0000_0000_0000int
            > 0xffff_ffff_ffff_ffff_ffff_ffff_ffff_ffff,
{
}

/// Saturate a 128-bit intermediate into a stored scalar.
fn clip_i128(v: i128) -> (r: i64)
    ensures
        r as int == clip(v as int),
{
    if v > FX_LIMIT as i128 {
        FX_LIMIT
    } else if v < -(FX_LIMIT as i128) {
        -FX_LIMIT
    } else {
        v as i64
    }
}

/// Quotient of a 128-bit intermediate by `FX_SCALE`, rounded toward zero.
fn tdiv_scale(p: i128) -> (q: i128)
    requires
        -0x4000_0000_0000_0000_0000_0000_0000_0000 <= p as int
            <= 0x4000_0000_0000_0000_0000_0000_0000_0000,
    ensures
        q as int == tdiv(p as int, FX_SCALE as int),
{
    if p >= 0 {
        (((p as u128) / (FX_SCALE as u128)) as i128)
    } else {
        let m = (-p) as u128;
        -((m / (FX_SCALE as u128)) as i128)
    }
}

impl Fx {
    /// The zero scalar.
    pub fn zero() -> (r: Fx)
        ensures
            r.bits == 0,
    {
        Fx { bits: 0 }
    }

    /// One whole unit.
    pub fn one() -> (r: Fx)
        ensures
            r@ == FX_SCALE as int,
    {
        Fx { bits: FX_SCALE }
    }

    /// A whole number of units, saturated into range.
    pub fn from_int(v: i64) -> (r: Fx)
        ensures
            r@ == clip(v * FX_SCALE),
    {
        proof {
            lemma_i64_prod_in_i128(v as int, FX_SCALE as int);
        }
        Fx { bits: clip_i128((v as i128) * (FX_SCALE as i128)) }
    }

    /// A scalar from a raw count of `1/FX_SCALE` units, saturated into range.
    pub fn from_raw(bits: i64) -> (r: Fx)
        ensures
            r@ == clip(bits as int),
    {
        Fx { bits: clip_i128(bits as i128) }
    }

    pub open spec fn ok(self) -> bool {
        fx_ok(self@)
    }

    pub fn add(self, o: Fx) -> (r: Fx)
        ensures
            r@ == fx_add(self@, o@),
    {
        Fx { bits: clip_i128((self.bits as i128) + (o.bits as i128)) }
    }

    pub fn sub(self, o: Fx) -> (r: Fx)
        ensures
            r@ == fx_sub(self@, o@),
    {
        Fx { bits: clip_i128((self.bits as i128) - (o.bits as i128)) }
    }

    pub fn neg(self) -> (r: Fx)
        ensures
            r@ == fx_neg(self@),
    {
        Fx { bits: clip_i128(-(self.bits as i128)) }
    }

    pub fn mul(self, o: Fx) -> (r: Fx)
        ensures
            r@ == fx_mul(self@, o@),
    {
        proof {
            lemma_i64_prod_in_i128(self@, o@);
        }
        let p: i128 = (self.bits as i128) * (o.bits as i128);
        Fx { bits: clip_i128(tdiv_scale(p)) }
    }

    pub fn div(self, o: Fx) -> (r: Fx)
        ensures
            r@ == fx_div(self@, o@),
    {
        if o.bits == 0 {
            Fx { bits: 0 }
        } else {
            proof {
                lemma_i64_prod_in_i128(self@, FX_SCALE as int);
            }
            let num: i128 = (self.bits as i128) * (FX_SCALE as i128);
            let mnum: u128 = if num >= 0 {
                num as u128
            } else {
                (-num) as u128
            };
            let mden: u128 = if o.bits >= 0 {
                o.bits as u128
            } else {
                (-(o.bits as i128)) as u128
            };
            let mq: u128 = mnum / mden;
            let q: i128 = if (num >= 0) == (o.bits >= 0) {
                mq as i128
            } else {
                -(mq as i128)
            };
            Fx { bits: clip_i128(q) }
        }
    }

    /// The smaller of two scalars.
    pub fn min(self, o: Fx) -> (r: Fx)
        ensures
            r@ == if self@ <= o@ {
                self@
            } else {
                o@
            },
    {
        if self.bits <= o.bits {
            self
        } else {
            o
        }
    }
}

/// Floor of the square root of a 128-bit sum of squares.
pub fn isqrt_u128(n: u128) -> (r: u128)
        ensures
            0 <= r as int,
            (r as int) * (r as int) <= n as int,
            (n as int) < ((r as int) + 1) * ((r as int) + 1),
            r as int == sqrt_floor(n as int),
    {
        let mut lo: u128 = 0;
        let mut hi: u128 = 0x1_0000_0000_0000_0000;
        proof {
            lemma_sq_2_64_exceeds_u128();
            assert((hi as int) * (hi as int) > n as int);
        }
        while hi - lo > 1
            invariant
                lo < hi,
                hi <= 0x1_0000_0000_0000_0000,
                (lo as int) * (lo as int) <= n as int,
                (hi as int) * (hi as int) > n as int,
            decreases hi - lo,
        {
            let mid: u128 = lo + (hi - lo) / 2;
            proof {
                lemma_sq_fits_u128(mid as int);
            }
            if mid * mid <= n {
                lo = mid;
            } else {
                hi = mid;
            }
        }
        proof {
            lemma_sqrt_floor_unique(n as int, lo as int);
        }
        lo
    }

} // verus!
