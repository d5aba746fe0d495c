//! Fixed-point scalars.
//!
//! A [`Real`] stores a signed 64-bit integer `raw` and stands for the number
//! `raw / 2^32`. Every operation rounds toward zero and saturates at the two
//! ends of the 64-bit range, so none of them can overflow or fail.

use vstd::prelude::*;

verus! {

/// Number of spatial dimensions.
pub const DIM: usize = 3;

/// Number of contact points one constraint can hold.
pub const MAX_MANIFOLD_POINTS: usize = 4;

/// The raw representation of the number one.
pub const ONE_RAW: i64 = 0x1_0000_0000;

/// Clamps an integer into the range of `i64`.
pub open spec fn saturate(x: int) -> int {
    if x < i64::MIN {
        i64::MIN as int
    } else if x > i64::MAX {
        i64::MAX as int
    } else {
        x
    }
}

/// Absolute value of an integer.
pub open spec fn magnitude(x: int) -> int {
    if x < 0 {
        -x
    } else {
        x
    }
}

/// Quotient of `n` by `d`, rounded toward zero. Meaningful for `d != 0`.
pub open spec fn trunc_div(n: int, d: int) -> int {
    let q = magnitude(n) / magnitude(d);
    if (n < 0) != (d < 0) {
        -q
    } else {
        q
    }
}

/// Whether `r` is the integer square root of `n`, rounded down.
pub open spec fn is_floor_sqrt(n: int, r: int) -> bool {
    0 <= r && r * r <= n && n < (r + 1) * (r + 1)
}

/// Integer square root of `n`, rounded down; zero for negative `n`.
pub open spec fn floor_sqrt(n: int) -> int {
    if n < 0 {
        0
    } else {
        choose|r: int| is_floor_sqrt(n, r)
    }
}

/// A saturating fixed-point number with 32 fractional bits.
#[derive(Clone, Copy, Debug, PartialEq, Eq, Structural)]
pub struct Real {
    pub raw: i64,
}

impl View for Real {
    type V = int;

    open spec fn view(&self) -> int {
        self.raw as int
    }
}

pub proof fn lemma_magnitude_product(a: int, b: int)
    ensures
        magnitude(a) * magnitude(b) == magnitude(a * b),
        (a * b < 0) == (a != 0 && b != 0 && ((a < 0) != (b < 0))),
{
    assert(magnitude(a) * magnitude(b) == magnitude(a * b)) by (nonlinear_arith);
    assert((a * b < 0) == (a != 0 && b != 0 && ((a < 0) != (b < 0)))) by (nonlinear_arith);
}

pub proof fn lemma_product_bound(a: int, b: int, m: int, n: int)
    requires
        0 <= a <= m,
        0 <= b <= n,
    ensures
        0 <= a * b <= m * n,
{
    assert(0 <= a * b <= m * n) by (nonlinear_arith)
        requires
            0 <= a <= m,
            0 <= b <= n,
    ;
}

/// At most one integer is the rounded-down square root of `n`.
pub proof fn lemma_floor_sqrt_unique(n: int, r: int)
    requires
        is_floor_sqrt(n, r),
    ensures
        floor_sqrt(n) == r,
{
    let s = choose|s: int| is_floor_sqrt(n, s);
    assert(is_floor_sqrt(n, s));
    assert(s == r) by (nonlinear_arith)
        requires
            0 <= r,
            r * r <= n,
            n < (r + 1) * (r + 1),
            0 <= s,
            s * s <= n,
            n < (s + 1) * (s + 1),
    ;
}

/// Absolute value of a raw component, widened so that it always fits.
fn raw_magnitude(x: i64) -> (m: u128)
    ensures
        m == magnitude(x as int),
        m <= 0x8000_0000_0000_0000,
{
    if x < 0 {
        (-(x as i128)) as u128
    } else {
        x as u128
    }
}

/// Rebuilds a scalar from a sign and a magnitude, saturating.
fn from_sign_magnitude(negative: bool, m: u128) -> (r: Real)
    ensures
        r.raw == saturate(
            if negative {
                -(m as int)
            } else {
                m as int
            },
        ),
{
    if negative {
        if m >= 0x8000_0000_0000_0000 {
            Real { raw: i64::MIN }
        } else {
            Real { raw: -(m as i64) }
        }
    } else {
        if m > 0x7fff_ffff_ffff_ffff {
            Real { raw: i64::MAX }
        } else {
            Real { raw: m as i64 }
        }
    }
}

/// Rounded-down square root of an integer below `2^96`.
fn integer_sqrt(n: u128) -> (r: u128)
    requires
        n < 0x1_0000_0000_0000_0000_0000_0000,
    ensures
        r == floor_sqrt(n as int),
        r < 0x1_0000_0000_0000,
{
    let mut lo: u128 = 0;
    let mut hi: u128 = 0x1_0000_0000_0000;
    assert(0x1_0000_0000_0000int * 0x1_0000_0000_0000int == 0x1_0000_0000_0000_0000_0000_0000int)
        by (nonlinear_arith);
    while hi - lo > 1
        invariant
            lo < hi <= 0x1_0000_0000_0000,
            lo * lo <= n,
            n < hi * hi,
        decreases hi - lo,
    {
        let mid: u128 = lo + (hi - lo) / 2;
        proof {
            lemma_product_bound(mid as int, mid as int, 0x1_0000_0000_0000, 0x1_0000_0000_0000);
        }
        if mid * mid <= n {
            lo = mid;
        } else {
            hi = mid;
        }
    }
    proof {
        assert(hi == lo + 1);
        lemma_floor_sqrt_unique(n as int, lo as int);
    }
    lo
}

impl Real {
    /// The number zero.
    pub open spec fn spec_zero() -> Real {
        Real { raw: 0 }
    }

    /// The number one.
    pub open spec fn spec_one() -> Real {
        Real { raw: ONE_RAW }
    }

    /// The whole number `n`, saturated.
    pub open spec fn spec_from_int(n: int) -> Real {
        Real { raw: saturate(n * ONE_RAW) as i64 }
    }

    /// Sum, saturated.
    #[verifier::opaque]
    pub open spec fn spec_add(self, rhs: Real) -> Real {
        Real { raw: saturate(self.raw + rhs.raw) as i64 }
    }

    /// Difference, saturated.
    #[verifier::opaque]
    pub open spec fn spec_sub(self, rhs: Real) -> Real {
        Real { raw: saturate(self.raw - rhs.raw) as i64 }
    }

    /// Opposite, saturated: the opposite of the smallest number is the
    /// largest.
    #[verifier::opaque]
    pub open spec fn spec_neg(self) -> Real {
        Real { raw: saturate(-self.raw) as i64 }
    }

    /// Product, rounded toward zero.
    #[verifier::opaque]
    pub open spec fn spec_mul(self, rhs: Real) -> Real {
        Real { raw: saturate(trunc_div(self.raw * rhs.raw, ONE_RAW as int)) as i64 }
    }

    /// Quotient, rounded toward zero, with the convention that division by
    /// zero yields zero.
    #[verifier::opaque]
    pub open spec fn spec_div(self, rhs: Real) -> Real {
        if rhs.raw == 0 {
            Real { raw: 0 }
        } else {
            Real { raw: saturate(trunc_div(self.raw * ONE_RAW, rhs.raw as int)) as i64 }
        }
    }

    /// Reciprocal, with the convention that the reciprocal of zero is zero.
    pub open spec fn spec_inv(self) -> Real {
        Real::spec_one().spec_div(self)
    }

    /// Square root rounded down; zero for a negative number.
    #[verifier::opaque]
    pub open spec fn spec_sqrt(self) -> Real {
        Real { raw: floor_sqrt(self.raw * ONE_RAW) as i64 }
    }

    pub open spec fn spec_max(self, rhs: Real) -> Real {
        if self.raw >= rhs.raw {
            self
        } else {
            rhs
        }
    }

    /// `lo` where `self < lo`, else `hi` where `self > hi`, else `self`.
    pub open spec fn spec_clamp(self, lo: Real, hi: Real) -> Real {
        if self.raw < lo.raw {
            lo
        } else if self.raw > hi.raw {
            hi
        } else {
            self
        }
    }

    /// `sign` carrying the sign of `self`; zero counts as positive.
    pub open spec fn spec_copy_sign_to(self, sign: Real) -> Real {
        if (self.raw < 0) == (sign.raw < 0) {
            sign
        } else {
            sign.spec_neg()
        }
    }

    pub fn from_raw(raw: i64) -> (r: Real)
        ensures
            r.raw == raw,
    {
        Real { raw }
    }

    #[verifier::when_used_as_spec(spec_zero)]
    pub fn zero() -> (r: Real)
        ensures
            r == Real::spec_zero(),
    {
        Real { raw: 0 }
    }

    #[verifier::when_used_as_spec(spec_one)]
    pub fn one() -> (r: Real)
        ensures
            r == Real::spec_one(),
    {
        Real { raw: ONE_RAW }
    }

    /// The smallest representable number.
    pub fn min_value() -> (r: Real)
        ensures
            r.raw == i64::MIN,
    {
        Real { raw: i64::MIN }
    }

    /// The largest representable number.
    pub fn max_value() -> (r: Real)
        ensures
            r.raw == i64::MAX,
    {
        Real { raw: i64::MAX }
    }

    pub fn from_usize(n: usize) -> (r: Real)
        ensures
            r == Real::spec_from_int(n as int),
    {
        if n > 0x7fff_ffff {
            Real { raw: i64::MAX }
        } else {
            Real { raw: (n as i64) * ONE_RAW }
        }
    }

    #[verifier::when_used_as_spec(spec_add)]
    pub fn add(self, rhs: Real) -> (r: Real)
        ensures
            r == self.spec_add(rhs),
    {
        proof {
            reveal(Real::spec_add);
        }
        let wide: i128 = self.raw as i128 + rhs.raw as i128;
        if wide < i64::MIN as i128 {
            Real { raw: i64::MIN }
        } else if wide > i64::MAX as i128 {
            Real { raw: i64::MAX }
        } else {
            Real { raw: wide as i64 }
        }
    }

    #[verifier::when_used_as_spec(spec_sub)]
    pub fn sub(self, rhs: Real) -> (r: Real)
        ensures
            r == self.spec_sub(rhs),
    {
        proof {
            reveal(Real::spec_sub);
        }
        let wide: i128 = self.raw as i128 - rhs.raw as i128;
        if wide < i64::MIN as i128 {
            Real { raw: i64::MIN }
        } else if wide > i64::MAX as i128 {
            Real { raw: i64::MAX }
        } else {
            Real { raw: wide as i64 }
        }
    }

    #[verifier::when_used_as_spec(spec_neg)]
    pub fn neg(self) -> (r: Real)
        ensures
            r == self.spec_neg(),
    {
        proof {
            reveal(Real::spec_neg);
        }
        if self.raw == i64::MIN {
            Real { raw: i64::MAX }
        } else {
            Real { raw: -self.raw }
        }
    }

    #[verifier::when_used_as_spec(spec_mul)]
    pub fn mul(self, rhs: Real) -> (r: Real)
        ensures
            r == self.spec_mul(rhs),
    {
        let a: u128 = raw_magnitude(self.raw);
        let b: u128 = raw_magnitude(rhs.raw);
        proof {
            reveal(Real::spec_mul);
            lemma_magnitude_product(self.raw as int, rhs.raw as int);
            lemma_product_bound(a as int, b as int, 0x8000_0000_0000_0000, 0x8000_0000_0000_0000);
        }
        let q: u128 = (a * b) / 0x1_0000_0000u128;
        let negative = self.raw != 0 && rhs.raw != 0 && ((self.raw < 0) != (rhs.raw < 0));
        from_sign_magnitude(negative, q)
    }

    #[verifier::when_used_as_spec(spec_div)]
    pub fn div(self, rhs: Real) -> (r: Real)
        ensures
            r == self.spec_div(rhs),
    {
        proof {
            reveal(Real::spec_div);
        }
        if rhs.raw == 0 {
            return Real { raw: 0 };
        }
        let a: u128 = raw_magnitude(self.raw);
        let b: u128 = raw_magnitude(rhs.raw);
        proof {
            lemma_magnitude_product(self.raw as int, ONE_RAW as int);
        }
        let q: u128 = (a * 0x1_0000_0000u128) / b;
        let negative = self.raw != 0 && (self.raw < 0) != (rhs.raw < 0);
        from_sign_magnitude(negative, q)
    }

    #[verifier::when_used_as_spec(spec_inv)]
    pub fn inv(self) -> (r: Real)
        ensures
            r == self.spec_inv(),
    {
        Real::one().div(self)
    }

    #[verifier::when_used_as_spec(spec_sqrt)]
    pub fn sqrt(self) -> (r: Real)
        ensures
            r == self.spec_sqrt(),
    {
        proof {
            reveal(Real::spec_sqrt);
        }
        if self.raw < 0 {
            assert(self.raw * ONE_RAW < 0) by (nonlinear_arith)
                requires
                    self.raw < 0,
            ;
            return Real { raw: 0 };
        }
        let n: u128 = (self.raw as u128) * 0x1_0000_0000u128;
        Real { raw: integer_sqrt(n) as i64 }
    }

    #[verifier::when_used_as_spec(spec_max)]
    pub fn max(self, rhs: Real) -> (r: Real)
        ensures
            r == self.spec_max(rhs),
    {
        if self.raw >= rhs.raw {
            self
        } else {
            rhs
        }
    }

    #[verifier::when_used_as_spec(spec_clamp)]
    pub fn clamp(self, lo: Real, hi: Real) -> (r: Real)
        ensures
            r == self.spec_clamp(lo, hi),
    {
        if self.raw < lo.raw {
            lo
        } else if self.raw > hi.raw {
            hi
        } else {
            self
        }
    }

    #[verifier::when_used_as_spec(spec_copy_sign_to)]
    pub fn copy_sign_to(self, sign: Real) -> (r: Real)
        ensures
            r == self.spec_copy_sign_to(sign),
    {
        if (self.raw < 0) == (sign.raw < 0) {
            sign
        } else {
            sign.neg()
        }
    }
}

/// The sum of two numbers that are not negative is not negative.
pub proof fn lemma_add_nonnegative(a: Real, b: Real)
    requires
        a.raw >= 0,
        b.raw >= 0,
    ensures
        a.add(b).raw >= 0,
{
    reveal(Real::spec_add);
}

/// Adding zero changes nothing.
pub proof fn lemma_add_zero(a: Real)
    ensures
        a.add(Real::zero()) == a,
        Real::zero().add(a) == a,
{
    reveal(Real::spec_add);
}

/// Subtracting zero changes nothing, and a number less itself is zero.
pub proof fn lemma_sub_zero(a: Real)
    ensures
        a.sub(Real::zero()) == a,
        a.sub(a) == Real::zero(),
{
    reveal(Real::spec_sub);
}

/// The product of two numbers that are not negative is not negative.
pub proof fn lemma_mul_nonnegative(a: Real, b: Real)
    requires
        a.raw >= 0,
        b.raw >= 0,
    ensures
        a.mul(b).raw >= 0,
{
    reveal(Real::spec_mul);
    lemma_magnitude_product(a.raw as int, b.raw as int);
    assert(magnitude(a.raw * b.raw) / (ONE_RAW as int) >= 0);
}

/// Multiplying by one changes nothing.
pub proof fn lemma_mul_one(a: Real)
    ensures
        a.mul(Real::one()) == a,
{
    reveal(Real::spec_mul);
    lemma_magnitude_product(a.raw as int, ONE_RAW as int);
    assert(magnitude(a.raw as int) * (ONE_RAW as int) / (ONE_RAW as int) == magnitude(a.raw as int))
        by (nonlinear_arith);
}

/// A zero factor gives a zero product.
pub proof fn lemma_mul_zero(a: Real)
    ensures
        a.mul(Real::zero()) == Real::zero(),
        Real::zero().mul(a) == Real::zero(),
{
    reveal(Real::spec_mul);
    assert(a.raw * 0 == 0 && 0 * a.raw == 0) by (nonlinear_arith);
    assert(0int / (ONE_RAW as int) == 0);
}

/// The opposite of a number that is not negative is exact.
pub proof fn lemma_neg_exact(a: Real)
    requires
        a.raw >= 0,
    ensures
        a.neg().raw == -a.raw,
{
    reveal(Real::spec_neg);
}

/// A square root is never negative.
pub proof fn lemma_sqrt_nonnegative(a: Real)
    ensures
        a.sqrt().raw >= 0,
{
    reveal(Real::spec_sqrt);
    lemma_floor_sqrt_bound(a.raw * ONE_RAW);
}

/// Every integer that is not negative has a rounded-down square root.
pub proof fn lemma_floor_sqrt_exists(n: int)
    requires
        n >= 0,
    ensures
        is_floor_sqrt(n, floor_sqrt(n)),
    decreases n,
{
    if n == 0 {
        assert(is_floor_sqrt(0, 0));
    } else {
        lemma_floor_sqrt_exists(n - 1);
        let r = floor_sqrt(n - 1);
        if (r + 1) * (r + 1) <= n {
            assert(is_floor_sqrt(n, r + 1)) by (nonlinear_arith)
                requires
                    0 <= r,
                    r * r <= n - 1,
                    n - 1 < (r + 1) * (r + 1),
                    (r + 1) * (r + 1) <= n,
            ;
        } else {
            assert(is_floor_sqrt(n, r));
        }
    }
}

/// The rounded-down square root of a number below `2^95` is below `2^48`.
pub proof fn lemma_floor_sqrt_bound(n: int)
    requires
        n < 0x8000_0000_0000_0000_0000_0000,
    ensures
        0 <= floor_sqrt(n) < 0x1_0000_0000_0000,
{
    if n >= 0 {
        lemma_floor_sqrt_exists(n);
        let r = floor_sqrt(n);
        assert(r < 0x1_0000_0000_0000) by (nonlinear_arith)
            requires
                0 <= r,
                r * r <= n,
                n < 0x8000_0000_0000_0000_0000_0000,
        ;
    }
}

} // verus!
