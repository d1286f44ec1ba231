//! Single-precision rounding on integers.
//!
//! Window and picture sizes are scaled in IEEE 754 single precision, rounding to
//! nearest with ties to even. Only non-negative numbers of moderate size take part,
//! so a number is kept as an integer mantissa of 24 bits and a power of two, and
//! each operation is the exact rational result rounded once.

use vstd::prelude::*;

verus! {

/// A non-negative single-precision number: `mantissa * 2^exponent`.
#[derive(Clone, Copy, Debug, PartialEq, Eq, Structural)]
pub struct Single {
    pub mantissa: u32,
    pub exponent: i32,
}

/// The integer nearest to `num / den`; of two equally near ones the even one.
pub open spec fn nearest_even(num: nat, den: nat) -> nat {
    let quotient = num / den;
    let twice = 2 * (num % den);
    if twice < den || (twice == den && quotient % 2 == 0) {
        quotient
    } else {
        quotient + 1
    }
}

/// The numerator of `num / den / 2^shift`.
pub open spec fn shifted_num(num: nat, shift: int) -> nat {
    if shift < 0 {
        num * vstd::arithmetic::power2::pow2((-shift) as nat)
    } else {
        num
    }
}

/// The denominator of `num / den / 2^shift`.
pub open spec fn shifted_den(den: nat, shift: int) -> nat {
    if shift > 0 {
        den * vstd::arithmetic::power2::pow2(shift as nat)
    } else {
        den
    }
}

/// `num / den / 2^shift` has exactly 24 bits before the point.
pub open spec fn has_24_bits(num: nat, den: nat, shift: int) -> bool {
    0x80_0000 * shifted_den(den, shift) <= shifted_num(num, shift) < 0x100_0000 * shifted_den(
        den,
        shift,
    )
}

/// The one power of two that leaves 24 bits of `num / den` before the point.
pub open spec fn shift_of(num: nat, den: nat) -> int {
    choose|shift: int| has_24_bits(num, den, shift)
}

/// The single-precision number nearest to `num / den * 2^offset`.
pub open spec fn rounded(num: nat, den: nat, offset: int) -> Single {
    let shift = shift_of(num, den);
    let mantissa = nearest_even(shifted_num(num, shift), shifted_den(den, shift));
    if mantissa == 0x100_0000 {
        Single { mantissa: 0x80_0000, exponent: (shift + 1 + offset) as i32 }
    } else {
        Single { mantissa: mantissa as u32, exponent: (shift + offset) as i32 }
    }
}

impl Single {
    /// Zero, or a mantissa with its top bit set and an exponent far inside the range
    /// of single precision.
    pub open spec fn valid(self) -> bool {
        ||| self.mantissa == 0 && self.exponent == 0
        ||| 0x80_0000 <= self.mantissa < 0x100_0000 && -140 <= self.exponent <= 100
    }

    pub open spec fn zero() -> Single {
        Single { mantissa: 0, exponent: 0 }
    }

    /// The number nearest to the integer `n`.
    pub open spec fn of_int(n: nat) -> Single {
        if n == 0 {
            Single::zero()
        } else {
            rounded(n, 1, 0)
        }
    }

    /// The rounded product.
    pub open spec fn product(self, other: Single) -> Single {
        if self.mantissa == 0 || other.mantissa == 0 {
            Single::zero()
        } else {
            rounded(
                (self.mantissa * other.mantissa) as nat,
                1,
                self.exponent + other.exponent,
            )
        }
    }

    /// The rounded quotient by a number other than zero.
    pub open spec fn quotient(self, other: Single) -> Single {
        if self.mantissa == 0 {
            Single::zero()
        } else {
            rounded(
                self.mantissa as nat,
                other.mantissa as nat,
                self.exponent - other.exponent,
            )
        }
    }

    /// Whether the number is below the other one.
    pub open spec fn below(self, other: Single) -> bool {
        shifted_num(self.mantissa as nat, other.exponent - self.exponent) < shifted_num(
            other.mantissa as nat,
            self.exponent - other.exponent,
        )
    }

    /// The nearest integer, halves going up.
    pub open spec fn to_nearest(self) -> nat {
        if self.exponent >= 0 {
            self.mantissa as nat * vstd::arithmetic::power2::pow2(self.exponent as nat)
        } else {
            let unit = vstd::arithmetic::power2::pow2((-self.exponent) as nat);
            (2 * self.mantissa as nat + unit) / (2 * unit)
        }
    }
}

/// Moving the point by `shift` divides the fraction by `2^shift`.
pub(crate) proof fn lemma_shift_scales(num: nat, den: nat, low: int, high: int)
    requires
        low < high,
    ensures
        shifted_num(num, low) * shifted_den(den, high) == shifted_num(num, high) * shifted_den(
            den,
            low,
        ) * vstd::arithmetic::power2::pow2((high - low) as nat),
{
    use_pow2_sums(low, high);
    let sn_low = shifted_num(num, low) as int;
    let sn_high = shifted_num(num, high) as int;
    let sd_low = shifted_den(den, low) as int;
    let sd_high = shifted_den(den, high) as int;
    let k = vstd::arithmetic::power2::pow2((high - low) as nat) as int;
    let n = num as int;
    let d = den as int;
    if low >= 0 {
        let a = vstd::arithmetic::power2::pow2(low as nat) as int;
        assert(sd_low == d * a) by {
            if low == 0 {
                assert(d * a == d) by (nonlinear_arith)
                    requires
                        a == 1,
                ;
            }
        }
        assert(sd_high == d * (a * k));
        assert(n * (d * (a * k)) == n * (d * a) * k) by (nonlinear_arith);
    } else if high <= 0 {
        let b = vstd::arithmetic::power2::pow2((-high) as nat) as int;
        assert(sn_high == n * b) by {
            if high == 0 {
                assert(n * b == n) by (nonlinear_arith)
                    requires
                        b == 1,
                ;
            }
        }
        assert(sn_low == n * (b * k));
        assert((n * (b * k)) * d == (n * b) * d * k) by (nonlinear_arith);
    } else {
        let a = vstd::arithmetic::power2::pow2((-low) as nat) as int;
        let b = vstd::arithmetic::power2::pow2(high as nat) as int;
        assert(k == a * b);
        assert((n * a) * (d * b) == n * d * (a * b)) by (nonlinear_arith);
    }
}

/// The sums of exponents that moving a point from `low` to `high` needs.
proof fn use_pow2_sums(low: int, high: int)
    requires
        low < high,
    ensures
        vstd::arithmetic::power2::pow2(0) == 1,
        low >= 0 ==> vstd::arithmetic::power2::pow2(high as nat)
            == vstd::arithmetic::power2::pow2(low as nat) * vstd::arithmetic::power2::pow2(
            (high - low) as nat,
        ),
        high <= 0 ==> vstd::arithmetic::power2::pow2((-low) as nat)
            == vstd::arithmetic::power2::pow2((-high) as nat) * vstd::arithmetic::power2::pow2(
            (high - low) as nat,
        ),
        low < 0 < high ==> vstd::arithmetic::power2::pow2((high - low) as nat)
            == vstd::arithmetic::power2::pow2((-low) as nat) * vstd::arithmetic::power2::pow2(
            high as nat,
        ),
{
    vstd::arithmetic::power2::lemma2_to64();
    if low >= 0 {
        vstd::arithmetic::power2::lemma_pow2_adds(low as nat, (high - low) as nat);
    }
    if high <= 0 {
        vstd::arithmetic::power2::lemma_pow2_adds((-high) as nat, (high - low) as nat);
    }
    if low < 0 < high {
        vstd::arithmetic::power2::lemma_pow2_adds((-low) as nat, high as nat);
    }
}

/// No two shifts leave exactly 24 bits before the point, so a shift that does is the one
/// that rounding goes by.
pub proof fn law_shift_is_unique(num: nat, den: nat, shift: int)
    requires
        den > 0,
        has_24_bits(num, den, shift),
    ensures
        shift_of(num, den) == shift,
{
    let other = shift_of(num, den);
    assert(has_24_bits(num, den, other));
    lemma_shift_not_below(num, den, other, shift);
    lemma_shift_not_below(num, den, shift, other);
}

/// A shift that leaves 24 bits at most is not below one that leaves 24 bits at least.
pub(crate) proof fn lemma_shift_not_below(num: nat, den: nat, low: int, high: int)
    requires
        den > 0,
        shifted_num(num, low) < 0x100_0000 * shifted_den(den, low),
        shifted_num(num, high) >= 0x80_0000 * shifted_den(den, high),
    ensures
        low >= high,
{
    if low < high {
        lemma_shift_scales(num, den, low, high);
        lemma_shifted_den_positive(den, low);
        lemma_shifted_den_positive(den, high);
        let sn_low = shifted_num(num, low) as int;
        let sn_high = shifted_num(num, high) as int;
        let sd_low = shifted_den(den, low) as int;
        let sd_high = shifted_den(den, high) as int;
        let k = vstd::arithmetic::power2::pow2((high - low) as nat) as int;
        assert(k >= 2) by {
            vstd::arithmetic::power2::lemma_pow2_unfold((high - low) as nat);
            vstd::arithmetic::power2::lemma_pow2_pos((high - low - 1) as nat);
        }
        assert(sn_low * sd_high < 0x100_0000 * (sd_low * sd_high)) by (nonlinear_arith)
            requires
                sn_low < 0x100_0000 * sd_low,
                sd_high > 0,
        ;
        assert(sn_high * sd_low * k >= 0x100_0000 * (sd_low * sd_high)) by (nonlinear_arith)
            requires
                sn_high >= 0x80_0000 * sd_high,
                sd_low > 0,
                sd_high > 0,
                k >= 2,
        ;
    }
}

pub(crate) proof fn lemma_shifted_den_positive(den: nat, shift: int)
    requires
        den > 0,
    ensures
        shifted_den(den, shift) > 0,
{
    if shift > 0 {
        let p = vstd::arithmetic::power2::pow2(shift as nat) as int;
        vstd::arithmetic::power2::lemma_pow2_pos(shift as nat);
        assert(den * p > 0) by (nonlinear_arith)
            requires
                den > 0,
                p > 0,
        ;
    }
}

/// Rounds `num / den * 2^offset` to single precision.
#[verifier::spinoff_prover]
fn round_fraction(num: u64, den: u64, offset: i32) -> (r: Single)
    requires
        0 < num < 0x1_0000_0000_0000,
        0 < den < 0x100_0000,
        -80 <= offset <= 70,
    ensures
        r == rounded(num as nat, den as nat, offset as int),
        r.valid(),
        0x80_0000 <= r.mantissa < 0x100_0000,
        has_24_bits(num as nat, den as nat, shift_of(num as nat, den as nat)),
        0 <= r.exponent - offset - shift_of(num as nat, den as nat) <= 1,
{
    let mut top: u128 = num as u128;
    let mut bottom: u128 = den as u128;
    let mut shift: i32 = 0;
    proof {
        vstd::arithmetic::power2::lemma2_to64();
    }
    while top < 0x80_0000 * bottom
        invariant
            0 < num < 0x1_0000_0000_0000,
            0 < den < 0x100_0000,
            bottom == den,
            -47 <= shift <= 0,
            top == shifted_num(num as nat, shift as int),
            top >= vstd::arithmetic::power2::pow2((-shift) as nat),
            shift < 0 ==> top < 0x100_0000 * bottom,
        decreases 0x100_0000 * bottom - top,
    {
        proof {
            let p = vstd::arithmetic::power2::pow2((-shift) as nat) as int;
            vstd::arithmetic::power2::lemma2_to64();
            vstd::arithmetic::power2::lemma_pow2_pos((-shift) as nat);
            vstd::arithmetic::power2::lemma_pow2_unfold((1 - shift) as nat);
            assert(vstd::arithmetic::power2::pow2((1 - shift) as nat) == 2 * p);
            assert(num * (2 * p) == 2 * (num * p)) by (nonlinear_arith);
            if shift == 0 {
                assert(num * p == num) by (nonlinear_arith)
                    requires
                        p == 1,
                ;
            }
            assert(shift > -47) by {
                if shift == -47 {
                    vstd::arithmetic::power2::lemma2_to64_rest();
                    assert(p == 0x8000_0000_0000);
                }
            }
        }
        top = 2 * top;
        shift = shift - 1;
    }
    while top >= 0x100_0000 * bottom
        invariant
            0 < num < 0x1_0000_0000_0000,
            0 < den < 0x100_0000,
            shift < 0 ==> top < 0x100_0000 * bottom && bottom == den && top == shifted_num(
                num as nat,
                shift as int,
            ),
            shift >= 0 ==> top == num && bottom == shifted_den(den as nat, shift as int)
                && bottom >= vstd::arithmetic::power2::pow2(shift as nat),
            -47 <= shift <= 24,
            bottom > 0,
            bottom < 0x1_0000_0000_0000,
            0x80_0000 * bottom <= top,
        decreases 0x1_0000_0000_0000 - bottom,
    {
        proof {
            let p = vstd::arithmetic::power2::pow2(shift as nat) as int;
            vstd::arithmetic::power2::lemma_pow2_unfold((shift + 1) as nat);
            assert(den * (2 * p) == 2 * (den * p)) by (nonlinear_arith);
            if shift == 0 {
                vstd::arithmetic::power2::lemma2_to64();
                assert(den * p == den) by (nonlinear_arith)
                    requires
                        p == 1,
                ;
            }
            assert(shift < 24) by {
                if shift == 24 {
                    vstd::arithmetic::power2::lemma2_to64();
                    assert(p == 0x100_0000);
                }
            }
        }
        bottom = 2 * bottom;
        shift = shift + 1;
    }
    assert(has_24_bits(num as nat, den as nat, shift as int));
    proof {
        law_shift_is_unique(num as nat, den as nat, shift as int);
    }
    let mut mantissa: u128 = top / bottom;
    let twice: u128 = 2 * (top % bottom);
    assert(0x80_0000 <= mantissa < 0x100_0000) by (nonlinear_arith)
        requires
            bottom > 0,
            mantissa == top / bottom,
            0x80_0000 * bottom <= top < 0x100_0000 * bottom,
    ;
    if twice > bottom || (twice == bottom && mantissa % 2 == 1) {
        mantissa = mantissa + 1;
    }
    if mantissa == 0x100_0000 {
        mantissa = 0x80_0000;
        shift = shift + 1;
    }
    Single { mantissa: mantissa as u32, exponent: shift + offset }
}

impl Single {
    /// The number nearest to an integer.
    pub fn from_u32(n: u32) -> (r: Single)
        ensures
            r == Single::of_int(n as nat),
            r.valid(),
            n == 0 <==> r.mantissa == 0,
            -23 <= r.exponent <= 9,
    {
        if n == 0 {
            return Single { mantissa: 0, exponent: 0 };
        }
        let r = round_fraction(n as u64, 1, 0);
        proof {
            let shift = shift_of(n as nat, 1);
            vstd::arithmetic::power2::lemma2_to64();
            assert(shifted_num(n as nat, -23) == n * 0x80_0000);
            lemma_shift_not_below(n as nat, 1, shift, -23);
            lemma_shift_not_below(n as nat, 1, 8, shift);
        }
        r
    }

    /// The product, rounded to single precision.
    pub fn times(self, other: Single) -> (r: Single)
        requires
            self.valid(),
            other.valid(),
            -80 <= self.exponent + other.exponent <= 70,
        ensures
            r == self.product(other),
            r.valid(),
            r.mantissa == 0 <==> self.mantissa == 0 || other.mantissa == 0,
            r.mantissa != 0 ==> 23 <= r.exponent - self.exponent - other.exponent <= 25,
    {
        if self.mantissa == 0 || other.mantissa == 0 {
            return Single { mantissa: 0, exponent: 0 };
        }
        let a: u64 = self.mantissa as u64;
        let b: u64 = other.mantissa as u64;
        assert(0x80_0000 * 0x80_0000 <= a * b < 0x100_0000 * 0x100_0000) by (nonlinear_arith)
            requires
                0x80_0000 <= a < 0x100_0000,
                0x80_0000 <= b < 0x100_0000,
        ;
        let r = round_fraction(a * b, 1, self.exponent + other.exponent);
        proof {
            let num = (self.mantissa * other.mantissa) as nat;
            let shift = shift_of(num, 1);
            vstd::arithmetic::power2::lemma2_to64();
            lemma_shift_not_below(num, 1, shift, 23);
            lemma_shift_not_below(num, 1, 24, shift);
        }
        r
    }

    /// The quotient, rounded to single precision.
    pub fn over(self, other: Single) -> (r: Single)
        requires
            self.valid(),
            other.valid(),
            other.mantissa != 0,
            -80 <= self.exponent - other.exponent <= 70,
        ensures
            r == self.quotient(other),
            r.valid(),
            r.mantissa == 0 <==> self.mantissa == 0,
            r.mantissa != 0 ==> -24 <= r.exponent - (self.exponent - other.exponent) <= -22,
    {
        if self.mantissa == 0 {
            return Single { mantissa: 0, exponent: 0 };
        }
        let r = round_fraction(
            self.mantissa as u64,
            other.mantissa as u64,
            self.exponent - other.exponent,
        );
        proof {
            let num = self.mantissa as nat;
            let den = other.mantissa as nat;
            let shift = shift_of(num, den);
            vstd::arithmetic::power2::lemma2_to64();
            assert(shifted_num(num, -24) == num * 0x100_0000);
            assert(shifted_num(num, -23) == num * 0x80_0000);
            lemma_shift_not_below(num, den, shift, -24);
            lemma_shift_not_below(num, den, -23, shift);
        }
        r
    }

    /// Whether the number is below the other one.
    pub fn is_below(self, other: Single) -> (r: bool)
        requires
            self.valid(),
            other.valid(),
        ensures
            r == self.below(other),
    {
        proof {
            lemma_order(self, other);
        }
        if self.mantissa == 0 || other.mantissa == 0 {
            self.mantissa < other.mantissa
        } else if self.exponent == other.exponent {
            self.mantissa < other.mantissa
        } else {
            self.exponent < other.exponent
        }
    }

    /// The nearest integer, halves going up, and the largest `u32` where it is larger.
    pub fn round_to_u32(self) -> (r: u32)
        requires
            self.valid(),
            self.exponent <= 30,
        ensures
            r == if self.to_nearest() < u32::MAX {
                self.to_nearest()
            } else {
                u32::MAX as nat
            },
    {
        if self.exponent >= 0 {
            let mut value: u64 = self.mantissa as u64;
            let mut i: i32 = 0;
            proof {
                vstd::arithmetic::power2::lemma2_to64();
            }
            assert(self.mantissa * 1 == self.mantissa);
            while i < self.exponent
                invariant
                    0 <= i <= self.exponent <= 30,
                    self.mantissa < 0x100_0000,
                    value == self.mantissa * vstd::arithmetic::power2::pow2(i as nat),
                decreases self.exponent - i,
            {
                proof {
                    let p = vstd::arithmetic::power2::pow2(i as nat) as int;
                    vstd::arithmetic::power2::lemma_pow2_unfold((i + 1) as nat);
                    vstd::arithmetic::power2::lemma2_to64();
                    assert(self.mantissa * (2 * p) == 2 * (self.mantissa * p))
                        by (nonlinear_arith);
                    if i < 30 {
                        vstd::arithmetic::power2::lemma_pow2_strictly_increases(i as nat, 30);
                    }
                    assert(self.mantissa * p < 0x100_0000 * 0x4000_0000) by (nonlinear_arith)
                        requires
                            self.mantissa < 0x100_0000,
                            0 <= p <= 0x4000_0000,
                    ;
                }
                value = 2 * value;
                i = i + 1;
            }
            if value < 0xffff_ffff {
                value as u32
            } else {
                0xffff_ffff
            }
        } else if self.exponent < -24 {
            proof {
                let unit = vstd::arithmetic::power2::pow2((-self.exponent) as nat) as int;
                vstd::arithmetic::power2::lemma2_to64();
                if self.exponent < -25 {
                    vstd::arithmetic::power2::lemma_pow2_strictly_increases(
                        25,
                        (-self.exponent) as nat,
                    );
                }
                assert((2 * self.mantissa + unit) / (2 * unit) == 0) by (nonlinear_arith)
                    requires
                        0 <= 2 * self.mantissa < unit,
                ;
            }
            0
        } else {
            let mut unit: u64 = 1;
            let mut i: i32 = 0;
            proof {
                vstd::arithmetic::power2::lemma2_to64();
            }
            while i < -self.exponent
                invariant
                    0 <= i <= -self.exponent <= 24,
                    unit == vstd::arithmetic::power2::pow2(i as nat),
                    0 < unit <= 0x100_0000,
                decreases -self.exponent - i,
            {
                proof {
                    vstd::arithmetic::power2::lemma_pow2_unfold((i + 1) as nat);
                    vstd::arithmetic::power2::lemma2_to64();
                    if i + 1 < 24 {
                        vstd::arithmetic::power2::lemma_pow2_strictly_increases(
                            (i + 1) as nat,
                            24,
                        );
                    }
                }
                unit = 2 * unit;
                i = i + 1;
            }
            let sum: u64 = 2 * (self.mantissa as u64) + unit;
            let rounded: u64 = sum / (2 * unit);
            proof {
                vstd::arithmetic::div_mod::lemma_div_nonincreasing(sum as int, 2 * unit);
            }
            rounded as u32
        }
    }
}

/// Numbers are ordered by exponent first and mantissa second, zero below all others.
pub(crate) proof fn lemma_order(a: Single, b: Single)
    requires
        a.valid(),
        b.valid(),
    ensures
        a.mantissa == 0 ==> (a.below(b) <==> b.mantissa != 0),
        b.mantissa == 0 ==> !a.below(b),
        a.mantissa != 0 && b.mantissa != 0 ==> (a.below(b) <==> a.exponent < b.exponent
            || a.exponent == b.exponent && a.mantissa < b.mantissa),
{
    let up = (b.exponent - a.exponent) as int;
    let p = vstd::arithmetic::power2::pow2((if up < 0 { -up } else { up }) as nat) as int;
    vstd::arithmetic::power2::lemma2_to64();
    vstd::arithmetic::power2::lemma_pow2_pos((if up < 0 { -up } else { up }) as nat);
    if up != 0 {
        vstd::arithmetic::power2::lemma_pow2_unfold((if up < 0 { -up } else { up }) as nat);
        vstd::arithmetic::power2::lemma_pow2_pos(((if up < 0 { -up } else { up }) - 1) as nat);
        assert(p >= 2);
    }
    let am = a.mantissa as int;
    let bm = b.mantissa as int;
    if am == 0 {
        assert(am * p == 0) by (nonlinear_arith)
            requires
                am == 0,
        ;
    }
    if bm == 0 {
        assert(bm * p == 0) by (nonlinear_arith)
            requires
                bm == 0,
        ;
    }
    if bm > 0 {
        assert(bm * p >= bm) by (nonlinear_arith)
            requires
                bm > 0,
                p >= 1,
        ;
    }
    if up > 0 && bm != 0 {
        assert(bm * p >= 0x100_0000) by (nonlinear_arith)
            requires
                bm >= 0x80_0000,
                p >= 2,
        ;
    }
    if up < 0 && am != 0 {
        assert(am * p >= 0x100_0000) by (nonlinear_arith)
            requires
                am >= 0x80_0000,
                p >= 2,
        ;
    }
}

/// Rounding goes to the nearest whole number, and halfway to the even one.
pub proof fn law_nearest_even(num: nat, den: nat)
    requires
        den > 0,
    ensures
        ({
            let off = nearest_even(num, den) * den - num;
            &&& -(den as int) <= 2 * off <= den
            &&& 2 * off == den || 2 * off == -(den as int) ==> nearest_even(num, den) % 2 == 0
        }),
{
    let (q, r) = (num / den, num % den);
    vstd::arithmetic::div_mod::lemma_fundamental_div_mod(num as int, den as int);
    vstd::arithmetic::div_mod::lemma_mod_bound(num as int, den as int);
    assert(q * den == den * q && (q + 1) * den == den * q + den) by (nonlinear_arith);
}

} // verus!
