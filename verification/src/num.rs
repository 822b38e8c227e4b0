//! Fixed-point scalars.
//!
//! Every coordinate in this crate is an [`Fx`]: a signed 64-bit raw value
//! carrying [`FX_ONE`] units per 1.0. Arithmetic saturates at the `i64`
//! range and divisions truncate toward zero, and every operation is
//! specified exactly by a spec-level mirror, so geometric code built on
//! top of these operations has exact contracts.

use vstd::prelude::*;

verus! {

/// Raw units per 1.0: 16 fractional bits.
pub const FX_ONE: i64 = 65536;

/// A fixed-point scalar: `raw` counts units of `1 / FX_ONE`.
#[derive(Clone, Copy, Debug, PartialEq, Eq, Structural, Hash)]
pub struct Fx {
    pub raw: i64,
}

/// Saturate an unbounded integer into the `i64` range.
pub open spec fn sat64(x: int) -> int {
    if x < i64::MIN as int {
        i64::MIN as int
    } else if x > i64::MAX as int {
        i64::MAX as int
    } else {
        x
    }
}

pub open spec fn abs_int(x: int) -> int {
    if x < 0 {
        -x
    } else {
        x
    }
}

/// Division truncated toward zero (the rounding used by all fixed-point
/// divisions in this crate); division by zero is defined as zero.
pub open spec fn tdiv(n: int, d: int) -> int {
    if d == 0 {
        0
    } else if (n < 0) == (d < 0) {
        abs_int(n) / abs_int(d)
    } else {
        -(abs_int(n) / abs_int(d))
    }
}

/// The saturating constructor: the result of every `Fx` operation.
pub open spec fn fx(v: int) -> Fx {
    Fx { raw: sat64(v) as i64 }
}

pub open spec fn fx_add_s(a: Fx, b: Fx) -> Fx {
    fx(a.raw + b.raw)
}

pub open spec fn fx_sub_s(a: Fx, b: Fx) -> Fx {
    fx(a.raw - b.raw)
}

pub open spec fn fx_neg_s(a: Fx) -> Fx {
    fx(-a.raw)
}

pub open spec fn fx_mul_s(a: Fx, b: Fx) -> Fx {
    fx(tdiv(a.raw * b.raw, FX_ONE as int))
}

pub open spec fn fx_div_s(a: Fx, b: Fx) -> Fx {
    fx(tdiv(a.raw * (FX_ONE as int), b.raw as int))
}

/// Division of a scalar by a (positive) count, used when averaging
/// merged queue payloads.
pub open spec fn fx_div_n_s(a: Fx, n: int) -> Fx {
    fx(tdiv(a.raw as int, n))
}

pub open spec fn is_sqrt(x: int, r: int) -> bool {
    r >= 0 && r * r <= x && x < (r + 1) * (r + 1)
}

/// The integer square root (floor), zero on negative input.
pub open spec fn sqrt_i(x: int) -> int {
    if x < 0 {
        0
    } else {
        choose|r: int| is_sqrt(x, r)
    }
}

/// Fixed-point square root: `sqrt(raw / FX_ONE) * FX_ONE == sqrt(raw * FX_ONE)`.
pub open spec fn fx_sqrt_s(a: Fx) -> Fx {
    if a.raw <= 0 {
        Fx { raw: 0 }
    } else {
        Fx { raw: sqrt_i(a.raw * (FX_ONE as int)) as i64 }
    }
}

/// Pins the integer square root: any witness satisfying `is_sqrt` is
/// the value of `sqrt_i`.
pub proof fn lemma_sqrt_i_is(x: int, r: int)
    requires
        is_sqrt(x, r),
    ensures
        sqrt_i(x) == r,
{
    assert(x >= 0) by (nonlinear_arith)
        requires
            r >= 0 && r * r <= x,
    ;
    lemma_sqrt_unique(x, r, sqrt_i(x));
}

proof fn lemma_sqrt_unique(x: int, r1: int, r2: int)
    requires
        is_sqrt(x, r1),
        is_sqrt(x, r2),
    ensures
        r1 == r2,
{
    assert(r1 == r2) by (nonlinear_arith)
        requires
            r1 >= 0 && r1 * r1 <= x && x < (r1 + 1) * (r1 + 1),
            r2 >= 0 && r2 * r2 <= x && x < (r2 + 1) * (r2 + 1),
    ;
}

/// Clamp a 128-bit value into the `i64` range.
fn clamp_i128(x: i128) -> (r: i64)
    ensures
        r as int == sat64(x as int),
{
    if x < i64::MIN as i128 {
        i64::MIN
    } else if x > i64::MAX as i128 {
        i64::MAX
    } else {
        x as i64
    }
}

/// Truncated 128-bit signed division, computed over magnitudes.
fn tdiv_i128(n: i128, d: i128) -> (r: i128)
    requires
        d != 0,
        n > i128::MIN,
        d > i128::MIN,
    ensures
        r as int == tdiv(n as int, d as int),
{
    let nu: u128 = if n < 0 {
        (-n) as u128
    } else {
        n as u128
    };
    let du: u128 = if d < 0 {
        (-d) as u128
    } else {
        d as u128
    };
    assert(nu as int == abs_int(n as int));
    assert(du as int == abs_int(d as int));
    let q: u128 = nu / du;
    assert(q as int <= nu as int) by (nonlinear_arith)
        requires
            q as int == nu as int / du as int,
            nu as int >= 0,
            du as int >= 1,
    ;
    if (n < 0) != (d < 0) {
        -(q as i128)
    } else {
        q as i128
    }
}

impl Fx {
    /// The scalar 0.
    pub fn zero() -> (r: Fx)
        ensures
            r == (Fx { raw: 0 }),
    {
        Fx { raw: 0 }
    }

    /// The scalar 1.
    pub fn one() -> (r: Fx)
        ensures
            r == (Fx { raw: FX_ONE }),
    {
        Fx { raw: FX_ONE }
    }

    /// The integer `n` as a scalar, saturated.
    pub fn from_int(n: i64) -> (r: Fx)
        ensures
            r == fx(n * FX_ONE),
    {
        proof {
            lemma_i64_product_fits(n as int, FX_ONE as int);
        }
        let p: i128 = (n as i128) * (FX_ONE as i128);
        Fx { raw: clamp_i128(p) }
    }

    /// Saturating addition.
    pub fn add(self, o: Fx) -> (r: Fx)
        ensures
            r == fx_add_s(self, o),
    {
        let s: i128 = (self.raw as i128) + (o.raw as i128);
        Fx { raw: clamp_i128(s) }
    }

    /// Saturating subtraction.
    pub fn sub(self, o: Fx) -> (r: Fx)
        ensures
            r == fx_sub_s(self, o),
    {
        let s: i128 = (self.raw as i128) - (o.raw as i128);
        Fx { raw: clamp_i128(s) }
    }

    /// Saturating negation.
    pub fn neg(self) -> (r: Fx)
        ensures
            r == fx_neg_s(self),
    {
        if self.raw == i64::MIN {
            Fx { raw: i64::MAX }
        } else {
            Fx { raw: -self.raw }
        }
    }

    /// Saturating fixed-point multiplication, truncated toward zero.
    pub fn mul(self, o: Fx) -> (r: Fx)
        ensures
            r == fx_mul_s(self, o),
    {
        proof {
            lemma_i64_product_fits(self.raw as int, o.raw as int);
        }
        let p: i128 = (self.raw as i128) * (o.raw as i128);
        let q: i128 = tdiv_i128(p, FX_ONE as i128);
        Fx { raw: clamp_i128(q) }
    }

    /// Saturating fixed-point division, truncated toward zero; zero when
    /// the divisor is zero.
    pub fn div(self, o: Fx) -> (r: Fx)
        ensures
            r == fx_div_s(self, o),
    {
        if o.raw == 0 {
            return Fx { raw: 0 };
        }
        proof {
            lemma_i64_product_fits(self.raw as int, FX_ONE as int);
        }
        let n: i128 = (self.raw as i128) * (FX_ONE as i128);
        let q: i128 = tdiv_i128(n, o.raw as i128);
        Fx { raw: clamp_i128(q) }
    }

    /// Division by a positive count (for averaging), truncated toward zero.
    pub fn div_count(self, n: usize) -> (r: Fx)
        requires
            n >= 1,
        ensures
            r == fx_div_n_s(self, n as int),
    {
        let q: i128 = tdiv_i128(self.raw as i128, n as i128);
        Fx { raw: clamp_i128(q) }
    }

    /// Fixed-point square root (floor), zero on non-positive input.
    pub fn sqrt(self) -> (r: Fx)
        ensures
            r == fx_sqrt_s(self),
    {
        if self.raw <= 0 {
            return Fx { raw: 0 };
        }
        let x: u128 = (self.raw as u128) * (FX_ONE as u128);
        assert(x as int == self.raw * (FX_ONE as int)) by (nonlinear_arith)
            requires
                x as int == (self.raw as u128) as int * ((FX_ONE as u128) as int),
                (self.raw as u128) as int == self.raw as int,
                ((FX_ONE as u128) as int) == FX_ONE as int,
        ;
        assert((x as int) < 0x80000000000000000000int) by (nonlinear_arith)
            requires
                x as int == self.raw * (FX_ONE as int),
                0 < (self.raw as int) < 0x8000000000000000,
                FX_ONE == 65536,
        ;
        let mut lo: u128 = 0;
        let mut hi: u128 = 0x10000000000u128;
        assert(hi * hi > x) by (nonlinear_arith)
            requires
                hi == 0x10000000000u128,
                (x as int) < 0x80000000000000000000int,
        ;
        while hi - lo > 1
            invariant
                lo < hi,
                hi <= 0x10000000000u128,
                lo * lo <= x,
                x < hi * hi,
            decreases hi - lo,
        {
            let mid: u128 = lo + (hi - lo) / 2;
            assert(lo < mid < hi);
            assert(mid * mid <= 0x10000000000u128 * 0x10000000000u128) by (nonlinear_arith)
                requires
                    0 <= mid <= 0x10000000000u128,
            ;
            if mid * mid <= x {
                lo = mid;
            } else {
                hi = mid;
            }
        }
        assert(hi == lo + 1);
        assert(is_sqrt(x as int, lo as int));
        proof {
            lemma_sqrt_unique(x as int, lo as int, sqrt_i(x as int));
        }
        Fx { raw: lo as i64 }
    }

    /// Whether `self` is strictly below `o`.
    pub fn lt(self, o: Fx) -> (r: bool)
        ensures
            r == (self.raw < o.raw),
    {
        self.raw < o.raw
    }
}

proof fn lemma_i64_product_fits(a: int, b: int)
    requires
        i64::MIN as int <= a <= i64::MAX as int,
        i64::MIN as int <= b <= i64::MAX as int,
    ensures
        i128::MIN < a * b,
        a * b < i128::MAX,
{
    let aa = abs_int(a);
    let bb = abs_int(b);
    vstd::arithmetic::mul::lemma_mul_upper_bound(
        aa,
        0x8000000000000000,
        bb,
        0x8000000000000000,
    );
    assert(aa * bb <= 0x40000000000000000000000000000000int);
    assert(a * b <= aa * bb && -(aa * bb) <= a * b) by (nonlinear_arith)
        requires
            aa >= 0 && (a == aa || a == -aa),
            bb >= 0 && (b == bb || b == -bb),
    ;
}

} // verus!
