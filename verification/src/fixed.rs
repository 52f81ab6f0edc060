//! Signed fixed-point numbers with sixteen fractional bits.
use vstd::prelude::*;

verus! {

/// The raw value of the number one.
pub const ONE_RAW: i32 = 65536;

/// A number `raw / 65536`. Coordinates, colour channels and blend weights
/// are all of this type.
#[derive(Clone, Copy, Debug, PartialEq, Eq, Structural)]
pub struct Fixed {
    pub raw: i32,
}

/// Whether `v` raw units can be stored without loss.
pub open spec fn fits(v: int) -> bool {
    i32::MIN <= v <= i32::MAX
}

/// The storable raw value nearest to `v`.
pub open spec fn saturated(v: int) -> int {
    if v < i32::MIN {
        i32::MIN as int
    } else if v > i32::MAX {
        i32::MAX as int
    } else {
        v
    }
}

/// The raw value of the product of two numbers with raw values `a` and `b`,
/// rounded down.
pub open spec fn product_raw(a: int, b: int) -> int {
    (a * b) / (ONE_RAW as int)
}

/// The raw value of `num / den`, rounded down.
pub open spec fn quotient_raw(num: int, den: int) -> int {
    (num * ONE_RAW) / den
}

fn saturate(v: i64) -> (r: Fixed)
    ensures
        r@ == saturated(v as int),
{
    if v < -2147483648 {
        Fixed { raw: -2147483648 }
    } else if v > 2147483647 {
        Fixed { raw: 2147483647 }
    } else {
        Fixed { raw: v as i32 }
    }
}

/// `a / b` rounded towards minus infinity, for a positive divisor.
fn floor_div(a: i128, b: i128) -> (q: i128)
    requires
        b > 0,
    ensures
        q == a / b,
{
    if a >= 0 {
        a / b
    } else {
        let m: i128 = -(a + 1);
        let k: i128 = m / b;
        proof {
            let mi: int = m as int;
            let bi: int = b as int;
            let ai: int = a as int;
            assert(mi == bi * (mi / bi) + mi % bi && 0 <= mi % bi < bi) by {
                vstd::arithmetic::div_mod::lemma_fundamental_div_mod(mi, bi);
                vstd::arithmetic::div_mod::lemma_mod_bound(mi, bi);
            }
            let q: int = -(mi / bi) - 1;
            let r: int = bi - 1 - mi % bi;
            assert(ai == q * bi + r) by (nonlinear_arith)
                requires
                    mi == bi * (mi / bi) + mi % bi,
                    mi == -(ai + 1),
                    q == -(mi / bi) - 1,
                    r == bi - 1 - mi % bi,
            ;
            vstd::arithmetic::div_mod::lemma_fundamental_div_mod_converse(ai, bi, q, r);
        }
        -k - 1
    }
}

impl View for Fixed {
    type V = int;

    open spec fn view(&self) -> int {
        self.raw as int
    }
}

impl Fixed {
    /// The number stored as `saturated(v)`.
    pub open spec fn of(v: int) -> Fixed {
        Fixed { raw: saturated(v) as i32 }
    }

    pub open spec fn spec_zero() -> Fixed {
        Fixed { raw: 0 }
    }

    pub open spec fn spec_one() -> Fixed {
        Fixed { raw: ONE_RAW }
    }

    pub open spec fn spec_plus(self, other: Fixed) -> Fixed {
        Fixed::of(self@ + other@)
    }

    pub open spec fn spec_minus(self, other: Fixed) -> Fixed {
        Fixed::of(self@ - other@)
    }

    pub open spec fn spec_times(self, other: Fixed) -> Fixed {
        Fixed::of(product_raw(self@, other@))
    }

    /// `num / den` rounded down to the grid, where the divisor is positive
    /// and the quotient can be stored.
    pub open spec fn ratio(num: int, den: int) -> Option<Fixed> {
        if den > 0 && fits(quotient_raw(num, den)) {
            Some(Fixed { raw: quotient_raw(num, den) as i32 })
        } else {
            None
        }
    }

    #[verifier::when_used_as_spec(spec_zero)]
    pub fn zero() -> (r: Fixed)
        ensures
            r == Fixed::spec_zero(),
    {
        Fixed { raw: 0 }
    }

    #[verifier::when_used_as_spec(spec_one)]
    pub fn one() -> (r: Fixed)
        ensures
            r == Fixed::spec_one(),
    {
        Fixed { raw: ONE_RAW }
    }

    /// The sum, kept at the nearest bound where it cannot be stored.
    #[verifier::when_used_as_spec(spec_plus)]
    pub fn plus(self, other: Fixed) -> (r: Fixed)
        ensures
            r == self.spec_plus(other),
    {
        saturate(self.raw as i64 + other.raw as i64)
    }

    /// The difference, kept at the nearest bound where it cannot be stored.
    #[verifier::when_used_as_spec(spec_minus)]
    pub fn minus(self, other: Fixed) -> (r: Fixed)
        ensures
            r == self.spec_minus(other),
    {
        saturate(self.raw as i64 - other.raw as i64)
    }

    /// The product rounded down to the grid, kept at the nearest bound where
    /// it cannot be stored.
    #[verifier::when_used_as_spec(spec_times)]
    pub fn times(self, other: Fixed) -> (r: Fixed)
        ensures
            r == self.spec_times(other),
    {
        let a: i128 = self.raw as i128;
        let b: i128 = other.raw as i128;
        assert(-0x4000_0000_0000_0000 <= a * b <= 0x4000_0000_0000_0000) by (nonlinear_arith)
            requires
                -0x8000_0000 <= a <= 0x7fff_ffff,
                -0x8000_0000 <= b <= 0x7fff_ffff,
        ;
        let q: i128 = floor_div(a * b, 65536);
        saturate(q as i64)
    }

    /// The fixed-point number just below or at `num / den`.
    pub fn from_ratio(num: i64, den: i64) -> (r: Option<Fixed>)
        ensures
            r == Fixed::ratio(num as int, den as int),
    {
        if den <= 0 {
            return None;
        }
        let q: i128 = floor_div(num as i128 * 65536, den as i128);
        if q < -2147483648 || q > 2147483647 {
            None
        } else {
            Some(Fixed { raw: q as i32 })
        }
    }
}

/// Multiplying by zero gives zero, and by one the number itself.
pub proof fn lemma_times_unit(a: Fixed)
    ensures
        a.times(Fixed::zero()) == Fixed::zero(),
        a.times(Fixed::one()) == a,
{
}

/// Adding zero on either side changes nothing.
pub proof fn lemma_plus_zero(a: Fixed)
    ensures
        a.plus(Fixed::zero()) == a,
        Fixed::zero().plus(a) == a,
{
}

/// Rounding each product down before adding loses at most one raw unit
/// against rounding the product with the sum: as long as `s + t` and both
/// products can be stored, `a * s + a * t` is `a * (s + t)` or one raw unit
/// below it.
pub proof fn lemma_times_distributes(a: Fixed, s: Fixed, t: Fixed)
    requires
        fits(s@ + t@),
        fits(product_raw(a@, s@)),
        fits(product_raw(a@, t@)),
    ensures
        a.times(s).plus(a.times(t))@ <= a.times(s.plus(t))@ <= a.times(s).plus(a.times(t))@ + 1,
        (a@ * s@) % (ONE_RAW as int) == 0 && (a@ * t@) % (ONE_RAW as int) == 0 ==> a.times(
            s.plus(t),
        ) == a.times(s).plus(a.times(t)),
{
    let x: int = a@ * s@;
    let y: int = a@ * t@;
    assert(a@ * (s@ + t@) == x + y) by (nonlinear_arith)
        requires
            x == a@ * s@,
            y == a@ * t@,
    ;
}

} // verus!
