//! How far single-precision results are from the exact ones.
//!
//! To compare numbers of different exponents, each is read as an integer: its value
//! times `2^160`.

use crate::single::Single;
use vstd::prelude::*;

verus! {

/// `2^160`.
pub open spec fn one() -> nat {
    vstd::arithmetic::power2::pow2(160)
}

/// The value times `2^160`.
pub open spec fn fixed(s: Single) -> nat {
    s.mantissa as nat * vstd::arithmetic::power2::pow2((s.exponent + 160) as nat)
}

/// `approx` differs from `exact` by so many parts in `2^24` at most.
pub open spec fn within(approx: int, exact: int, parts: int) -> bool {
    -(parts * exact) <= 0x100_0000 * (approx - exact) <= parts * exact
}

/// `approx` differs from `exact` by one part in `2^24` at most.
pub open spec fn close(approx: int, exact: int) -> bool {
    within(approx, exact, 1)
}

proof fn lemma_shift_search(num: nat, den: nat, low: int, high: int) -> (shift: int)
    requires
        den > 0,
        low <= high,
        0x80_0000 * crate::single::shifted_den(den, low) <= crate::single::shifted_num(num, low),
        crate::single::shifted_num(num, high) < 0x100_0000 * crate::single::shifted_den(den, high),
    ensures
        low <= shift <= high,
        crate::single::has_24_bits(num, den, shift),
    decreases high - low,
{
    let sn = crate::single::shifted_num(num, low) as int;
    let sd = crate::single::shifted_den(den, low) as int;
    if sn < 0x100_0000 * sd {
        low
    } else {
        let sn1 = crate::single::shifted_num(num, low + 1) as int;
        let sd1 = crate::single::shifted_den(den, low + 1) as int;
        crate::single::lemma_shift_scales(num, den, low, low + 1);
        crate::single::lemma_shifted_den_positive(den, low);
        crate::single::lemma_shifted_den_positive(den, low + 1);
        vstd::arithmetic::power2::lemma2_to64();
        assert(sn * sd1 == sn1 * sd * 2);
        assert(sn1 >= 0x80_0000 * sd1) by (nonlinear_arith)
            requires
                sn * sd1 == sn1 * sd * 2,
                sn >= 0x100_0000 * sd,
                sd > 0,
                sd1 > 0,
        ;
        lemma_shift_search(num, den, low + 1, high)
    }
}

/// A fraction of moderate size has a shift that leaves 24 bits, and not a far one.
proof fn lemma_shift_of(num: nat, den: nat)
    requires
        0 < num < 0x1_0000_0000_0000,
        0 < den < 0x100_0000,
    ensures
        crate::single::has_24_bits(num, den, crate::single::shift_of(num, den)),
        -48 <= crate::single::shift_of(num, den) <= 24,
{
    vstd::arithmetic::power2::lemma2_to64();
    vstd::arithmetic::power2::lemma2_to64_rest();
    assert(crate::single::shifted_num(num, -48) == num * 0x1_0000_0000_0000);
    assert(crate::single::shifted_den(den, 24) == den * 0x100_0000);
    let shift = lemma_shift_search(num, den, -48, 24);
    crate::single::law_shift_is_unique(num, den, shift);
}

/// Rounding to the nearest integer is off by half at most.
proof fn lemma_nearest_even(num: nat, den: nat)
    requires
        den > 0,
    ensures
        -(den as int) <= 2 * (crate::single::nearest_even(num, den) * den - num) <= den,
{
    let q = (num / den) as int;
    let r = (num % den) as int;
    vstd::arithmetic::div_mod::lemma_fundamental_div_mod(num as int, den as int);
    assert(q * den == den * q) by (nonlinear_arith);
    assert((q + 1) * den == den * q + den) by (nonlinear_arith);
}

/// The rounded fraction: the nearest whole mantissa under the shift that leaves 24 bits.
proof fn lemma_rounded_fixed(num: nat, den: nat, offset: int)
    requires
        0 < num < 0x1_0000_0000_0000,
        0 < den < 0x100_0000,
        -80 <= offset <= 70,
    ensures
        ({
            let shift = crate::single::shift_of(num, den);
            let sn = crate::single::shifted_num(num, shift);
            let sd = crate::single::shifted_den(den, shift);
            let m = crate::single::nearest_even(sn, sd);
            let r = crate::single::rounded(num, den, offset);
            &&& crate::single::has_24_bits(num, den, shift)
            &&& -48 <= shift <= 24
            &&& sd > 0
            &&& 0x80_0000 <= m <= 0x100_0000
            &&& fixed(r) == m * vstd::arithmetic::power2::pow2((shift + offset + 160) as nat)
            &&& r.valid()
            &&& r.mantissa != 0
            &&& -128 <= r.exponent <= 95
        }),
{
    lemma_shift_of(num, den);
    let shift = crate::single::shift_of(num, den);
    let sn = crate::single::shifted_num(num, shift);
    let sd = crate::single::shifted_den(den, shift);
    let m = crate::single::nearest_even(sn, sd);
    let r = crate::single::rounded(num, den, offset);
    crate::single::lemma_shifted_den_positive(den, shift);
    lemma_nearest_even(sn, sd);
    let k = sd as int;
    let mi = m as int;
    assert(0x80_0000 <= m <= 0x100_0000) by (nonlinear_arith)
        requires
            k > 0,
            -k <= 2 * (mi * k - sn) <= k,
            0x80_0000 * k <= sn < 0x100_0000 * k,
            mi == m,
    ;
    let unit = vstd::arithmetic::power2::pow2((shift + offset + 160) as nat) as int;
    vstd::arithmetic::power2::lemma_pow2_unfold((shift + offset + 161) as nat);
    if m == 0x100_0000 {
        assert(r.exponent == shift + 1 + offset);
        assert(fixed(r) == 0x80_0000 * (2 * unit));
    } else {
        assert(r.exponent == shift + offset);
    }
}

/// The rounded fraction differs from the fraction by one part in `2^24` at most.
#[verifier::spinoff_prover]
proof fn lemma_rounded(num: nat, den: nat, offset: int)
    requires
        0 < num < 0x1_0000_0000_0000,
        0 < den < 0x100_0000,
        -80 <= offset <= 70,
    ensures
        close(
            fixed(crate::single::rounded(num, den, offset)) * den as int,
            num * vstd::arithmetic::power2::pow2((offset + 160) as nat) as int,
        ),
{
    lemma_rounded_fixed(num, den, offset);
    let shift = crate::single::shift_of(num, den);
    let sn = crate::single::shifted_num(num, shift);
    let sd = crate::single::shifted_den(den, shift);
    let mi = crate::single::nearest_even(sn, sd) as int;
    lemma_nearest_even(sn, sd);
    let d = den as int;
    let n = num as int;
    let unit = vstd::arithmetic::power2::pow2((shift + offset + 160) as nat) as int;
    let big = vstd::arithmetic::power2::pow2((offset + 160) as nat) as int;
    if shift <= 0 {
        let p = vstd::arithmetic::power2::pow2((-shift) as nat) as int;
        vstd::arithmetic::power2::lemma_pow2_adds((-shift) as nat, (shift + offset + 160) as nat);
        vstd::arithmetic::power2::lemma2_to64();
        vstd::arithmetic::power2::lemma_pow2_pos((shift + offset + 160) as nat);
        assert(big == p * unit);
        assert(sn == n * p) by {
            if shift == 0 {
                assert(n * p == n) by (nonlinear_arith)
                    requires
                        p == 1,
                ;
            }
        }
        assert(close(mi * unit * d, n * (p * unit))) by (nonlinear_arith)
            requires
                -d <= 2 * (mi * d - n * p) <= d,
                0x80_0000 * d <= n * p,
                unit > 0,
        {
            let x = mi * d - n * p;
            let y = n * p;
            assert(-y <= 0x100_0000 * x <= y);
            assert(mi * unit * d - n * (p * unit) == x * unit);
            assert(n * (p * unit) == y * unit);
            assert(0x100_0000 * (x * unit) <= y * unit);
            assert(-(y * unit) <= 0x100_0000 * (x * unit));
        }
    } else {
        let p = vstd::arithmetic::power2::pow2(shift as nat) as int;
        vstd::arithmetic::power2::lemma_pow2_adds(shift as nat, (offset + 160) as nat);
        vstd::arithmetic::power2::lemma_pow2_pos((offset + 160) as nat);
        assert(unit == p * big);
        assert(close(mi * (p * big) * d, n * big)) by (nonlinear_arith)
            requires
                -(d * p) <= 2 * (mi * (d * p) - n) <= d * p,
                0x80_0000 * (d * p) <= n,
                big > 0,
        {
            let x = mi * (d * p) - n;
            assert(-n <= 0x100_0000 * x <= n);
            assert(mi * (p * big) * d - n * big == x * big);
            assert(0x100_0000 * (x * big) <= n * big);
            assert(-(n * big) <= 0x100_0000 * (x * big));
        }
    }
}

/// Dividing both numbers keeps them as close.
pub(crate) proof fn lemma_within_unscaled(approx: int, exact: int, parts: int, factor: int)
    requires
        within(approx * factor, exact * factor, parts),
        factor > 0,
    ensures
        within(approx, exact, parts),
{
    let (d, e) = (0x100_0000 * (approx - exact), parts * exact);
    assert(d * factor == 0x100_0000 * (approx * factor - exact * factor)) by (nonlinear_arith)
        requires
            d == 0x100_0000 * (approx - exact),
    ;
    assert(e * factor == parts * (exact * factor)) by (nonlinear_arith)
        requires
            e == parts * exact,
    ;
    assert(-e <= d <= e) by (nonlinear_arith)
        requires
            -(e * factor) <= d * factor <= e * factor,
            factor > 0,
    ;
}

/// Scaling both numbers keeps them as close.
pub(crate) proof fn lemma_within_scaled(approx: int, exact: int, parts: int, factor: int)
    requires
        within(approx, exact, parts),
        factor >= 0,
    ensures
        within(approx * factor, exact * factor, parts),
{
    let (d, e) = (0x100_0000 * (approx - exact), parts * exact);
    assert(d * factor == 0x100_0000 * (approx * factor - exact * factor)) by (nonlinear_arith)
        requires
            d == 0x100_0000 * (approx - exact),
    ;
    assert(e * factor == parts * (exact * factor)) by (nonlinear_arith)
        requires
            e == parts * exact,
    ;
    assert(-(e * factor) <= d * factor <= e * factor) by (nonlinear_arith)
        requires
            -e <= d <= e,
            factor >= 0,
    ;
}

/// Being close adds up, and a little.
pub(crate) proof fn lemma_within_chain(a: int, b: int, c: int, p: int, q: int)
    requires
        within(a, b, p),
        within(b, c, q),
        0 <= p <= 100,
        0 <= q <= 100,
        c >= 0,
    ensures
        within(a, c, p + q + 1),
{
    let over = 0x100_0000 * (b - c);
    let qc = q * c;
    assert(p * over <= p * qc && -(p * qc) <= p * over) by (nonlinear_arith)
        requires
            -qc <= over <= qc,
            p >= 0,
    ;
    assert(p * over == 0x100_0000 * (p * b - p * c)) by (nonlinear_arith)
        requires
            over == 0x100_0000 * (b - c),
    ;
    assert(0 <= p * qc <= 10000 * c) by (nonlinear_arith)
        requires
            qc == q * c,
            0 <= p <= 100,
            0 <= q <= 100,
            c >= 0,
    ;
    assert((p + q + 1) * c == p * c + qc + c) by (nonlinear_arith)
        requires
            qc == q * c,
    ;
}

/// Being close goes both ways, and a little.
pub(crate) proof fn lemma_within_reverse(a: int, b: int, p: int)
    requires
        within(a, b, p),
        0 <= p <= 100,
        b >= 0,
    ensures
        within(b, a, p + 1),
{
    let over = 0x100_0000 * (a - b);
    let pb = p * b;
    assert(-((p + 1) * pb) <= (p + 1) * over) by (nonlinear_arith)
        requires
            -pb <= over,
            p >= 0,
    ;
    assert((p + 1) * over == 0x100_0000 * ((p + 1) * a - (p + 1) * b)) by (nonlinear_arith)
        requires
            over == 0x100_0000 * (a - b),
    ;
    assert(0 <= (p + 1) * pb <= 10100 * b) by (nonlinear_arith)
        requires
            pb == p * b,
            0 <= p <= 100,
            b >= 0,
    ;
    assert((p + 1) * b == pb + b) by (nonlinear_arith)
        requires
            pb == p * b,
    ;
}

/// Integers of 24 bits are represented exactly, others within one part in `2^24`.
#[verifier::spinoff_prover]
pub(crate) proof fn lemma_of_int(n: u32)
    ensures
        Single::of_int(n as nat).valid(),
        -23 <= Single::of_int(n as nat).exponent <= 9,
        n != 0 ==> Single::of_int(n as nat).mantissa != 0,
        n <= 0x100_0000 ==> fixed(Single::of_int(n as nat)) == n * one(),
        close(fixed(Single::of_int(n as nat)) as int, n * one() as int),
{
    vstd::arithmetic::power2::lemma2_to64();
    if n != 0 {
        let shift = crate::single::shift_of(n as nat, 1);
        lemma_rounded_fixed(n as nat, 1, 0);
        lemma_rounded(n as nat, 1, 0);
        assert(crate::single::shifted_num(n as nat, -23) == n * 0x80_0000);
        crate::single::lemma_shift_not_below(n as nat, 1, shift, -23);
        crate::single::lemma_shift_not_below(n as nat, 1, 8, shift);
        assert(fixed(Single::of_int(n as nat)) * 1 == fixed(Single::of_int(n as nat)));
        if n < 0x100_0000 {
            crate::single::lemma_shift_not_below(n as nat, 1, 0, shift);
            let p = vstd::arithmetic::power2::pow2((-shift) as nat) as int;
            let unit = vstd::arithmetic::power2::pow2((shift + 160) as nat) as int;
            let sn = crate::single::shifted_num(n as nat, shift);
            vstd::arithmetic::power2::lemma_pow2_adds((-shift) as nat, (shift + 160) as nat);
            assert(sn / 1 == sn && sn % 1 == 0);
            assert(crate::single::nearest_even(sn, 1) == sn);
            assert(fixed(Single::of_int(n as nat)) == sn * unit);
            assert(p * unit == one());
            assert(sn == n * p) by {
                if shift == 0 {
                    assert(n * p == n) by (nonlinear_arith)
                        requires
                            p == 1,
                    ;
                }
            }
            assert(sn * unit == n * one()) by (nonlinear_arith)
                requires
                    sn == n * p,
                    p * unit == one(),
            ;
        } else if n == 0x100_0000 {
            assert(crate::single::shifted_den(1, 1) == 2);
            crate::single::law_shift_is_unique(n as nat, 1, 1);
            assert(crate::single::nearest_even(n as nat, 2) == 0x80_0000);
            vstd::arithmetic::power2::lemma_pow2_unfold(161);
            assert(fixed(Single::of_int(n as nat)) == 0x80_0000 * (2 * one()));
            assert(n * one() == 0x100_0000 * one());
        }
    } else {
        assert(fixed(Single::of_int(n as nat)) == 0 * one());
        assert(n * one() == 0 * one());
    }
}

/// A larger integer is not represented by a smaller number.
#[verifier::spinoff_prover]
pub(crate) proof fn lemma_of_int_monotone(a: u32, b: u32)
    requires
        a <= b,
    ensures
        fixed(Single::of_int(a as nat)) <= fixed(Single::of_int(b as nat)),
{
    if a != 0 {
        let sa = crate::single::shift_of(a as nat, 1);
        let sb = crate::single::shift_of(b as nat, 1);
        lemma_rounded_fixed(a as nat, 1, 0);
        lemma_rounded_fixed(b as nat, 1, 0);
        let na = crate::single::shifted_num(a as nat, sa);
        let nb = crate::single::shifted_num(b as nat, sb);
        let ma = crate::single::nearest_even(na, crate::single::shifted_den(1, sa)) as int;
        let mb = crate::single::nearest_even(nb, crate::single::shifted_den(1, sb)) as int;
        let ua = vstd::arithmetic::power2::pow2((sa + 160) as nat) as int;
        let ub = vstd::arithmetic::power2::pow2((sb + 160) as nat) as int;
        vstd::arithmetic::power2::lemma_pow2_pos((sa + 160) as nat);
        assert(crate::single::shifted_num(a as nat, sb) <= nb) by {
            if sb < 0 {
                let p = vstd::arithmetic::power2::pow2((-sb) as nat) as int;
                assert(a * p <= b * p) by (nonlinear_arith)
                    requires
                        a <= b,
                        p >= 0,
                ;
            }
        }
        crate::single::lemma_shift_not_below(a as nat, 1, sb, sa);
        if sa == sb {
            let den = crate::single::shifted_den(1, sa);
            lemma_nearest_even_monotone(na, nb, den);
            assert(ma * ua <= mb * ua) by (nonlinear_arith)
                requires
                    ma <= mb,
                    ua >= 0,
            ;
        } else {
            vstd::arithmetic::power2::lemma_pow2_unfold((sa + 161) as nat);
            if sa + 1 < sb {
                vstd::arithmetic::power2::lemma_pow2_strictly_increases(
                    (sa + 161) as nat,
                    (sb + 160) as nat,
                );
            }
            assert(ma * ua <= mb * ub) by (nonlinear_arith)
                requires
                    0 <= ma <= 0x100_0000,
                    mb >= 0x80_0000,
                    ua > 0,
                    ub >= 2 * ua,
            ;
        }
        assert(fixed(Single::of_int(a as nat)) == ma * ua);
        assert(fixed(Single::of_int(b as nat)) == mb * ub);
    } else {
        assert(fixed(Single::of_int(a as nat)) == 0 * vstd::arithmetic::power2::pow2(160));
    }
}

proof fn lemma_nearest_even_monotone(a: nat, b: nat, den: nat)
    requires
        a <= b,
        den > 0,
    ensures
        crate::single::nearest_even(a, den) <= crate::single::nearest_even(b, den),
{
    let qa = (a / den) as int;
    let qb = (b / den) as int;
    let d = den as int;
    vstd::arithmetic::div_mod::lemma_fundamental_div_mod(a as int, d);
    vstd::arithmetic::div_mod::lemma_fundamental_div_mod(b as int, d);
    vstd::arithmetic::div_mod::lemma_div_is_ordered(a as int, b as int, d);
    if qa == qb {
        assert(a % den <= b % den);
    }
}

/// The product is within one part in `2^24` of the exact one.
pub(crate) proof fn lemma_product(a: Single, b: Single)
    requires
        a.valid(),
        b.valid(),
        -80 <= a.exponent + b.exponent <= 70,
    ensures
        close(fixed(a.product(b)) * one() as int, fixed(a) * fixed(b) as int),
        a.product(b).valid(),
        -128 <= a.product(b).exponent <= 95,
{
    let ma = a.mantissa as int;
    let mb = b.mantissa as int;
    let pa = vstd::arithmetic::power2::pow2((a.exponent + 160) as nat) as int;
    let pb = vstd::arithmetic::power2::pow2((b.exponent + 160) as nat) as int;
    let p = vstd::arithmetic::power2::pow2((a.exponent + b.exponent + 160) as nat) as int;
    let r = fixed(a.product(b)) as int;
    if ma == 0 || mb == 0 {
        assert((ma * pa) * (mb * pb) == 0) by (nonlinear_arith)
            requires
                ma == 0 || mb == 0,
        ;
        assert(r == 0);
        assert(r * one() == 0) by (nonlinear_arith)
            requires
                r == 0,
        ;
    } else {
        assert(0 < ma * mb < 0x1_0000_0000_0000) by (nonlinear_arith)
            requires
                0x80_0000 <= ma < 0x100_0000,
                0x80_0000 <= mb < 0x100_0000,
        ;
        let num = (ma * mb) as nat;
        lemma_rounded_fixed(num, 1, a.exponent + b.exponent);
        lemma_rounded(num, 1, a.exponent + b.exponent);
        assert(close(r, ma * mb * p));
        lemma_within_scaled(r, ma * mb * p, 1, one() as int);
        vstd::arithmetic::power2::lemma_pow2_adds(
            (a.exponent + 160) as nat,
            (b.exponent + 160) as nat,
        );
        vstd::arithmetic::power2::lemma_pow2_adds((a.exponent + b.exponent + 160) as nat, 160);
        let k = one() as int;
        assert(pa * pb == p * k);
        assert(ma * mb * p * k == (ma * pa) * (mb * pb)) by (nonlinear_arith)
            requires
                pa * pb == p * k,
        ;
    }
}

/// A product that is at least half a unit below `m` is not rounded further down.
#[verifier::spinoff_prover]
pub(crate) proof fn lemma_product_at_least(a: Single, b: Single, m: int)
    requires
        a.valid(),
        b.valid(),
        a.mantissa != 0,
        b.mantissa != 0,
        -80 <= a.exponent + b.exponent <= 70,
        1 <= m < 0x80_0000,
        2 * (fixed(a) * fixed(b)) >= (2 * m - 1) * one() * one(),
    ensures
        2 * fixed(a.product(b)) >= (2 * m - 1) * one(),
{
    let ma = a.mantissa as int;
    let mb = b.mantissa as int;
    let pa = vstd::arithmetic::power2::pow2((a.exponent + 160) as nat) as int;
    let pb = vstd::arithmetic::power2::pow2((b.exponent + 160) as nat) as int;
    let offset = a.exponent + b.exponent;
    let big = vstd::arithmetic::power2::pow2((offset + 160) as nat) as int;
    let k = one() as int;
    assert(0 < ma * mb < 0x1_0000_0000_0000) by (nonlinear_arith)
        requires
            0x80_0000 <= ma < 0x100_0000,
            0x80_0000 <= mb < 0x100_0000,
    ;
    let num = (ma * mb) as nat;
    lemma_rounded_fixed(num, 1, offset);
    let shift = crate::single::shift_of(num, 1);
    let sn = crate::single::shifted_num(num, shift);
    let sd = crate::single::shifted_den(1, shift);
    let rounded = crate::single::nearest_even(sn, sd) as int;
    let unit = vstd::arithmetic::power2::pow2((shift + offset + 160) as nat) as int;
    vstd::arithmetic::power2::lemma_pow2_pos((shift + offset + 160) as nat);
    vstd::arithmetic::power2::lemma_pow2_pos(160);
    assert(2 * (num * big) >= (2 * m - 1) * k) by {
        vstd::arithmetic::power2::lemma_pow2_adds(
            (a.exponent + 160) as nat,
            (b.exponent + 160) as nat,
        );
        vstd::arithmetic::power2::lemma_pow2_adds((offset + 160) as nat, 160);
        assert(pa * pb == big * k);
        assert((ma * pa) * (mb * pb) == (ma * mb * big) * k) by (nonlinear_arith)
            requires
                pa * pb == big * k,
        ;
        assert(2 * (ma * mb * big) >= (2 * m - 1) * k) by (nonlinear_arith)
            requires
                2 * ((ma * mb * big) * k) >= (2 * m - 1) * k * k,
                k > 0,
        ;
    }
    if shift + offset >= 0 {
        let p = vstd::arithmetic::power2::pow2((shift + offset) as nat) as int;
        vstd::arithmetic::power2::lemma_pow2_adds((shift + offset) as nat, 160);
        vstd::arithmetic::power2::lemma_pow2_pos((shift + offset) as nat);
        assert(2 * (rounded * (p * k)) >= (2 * m - 1) * k) by (nonlinear_arith)
            requires
                rounded >= 0x80_0000,
                p >= 1,
                k > 0,
                m < 0x80_0000,
        {
            assert(rounded * p >= 0x80_0000);
            assert(rounded * (p * k) == (rounded * p) * k);
            assert((rounded * p) * k >= 0x80_0000 * k);
        }
    } else {
        let p = vstd::arithmetic::power2::pow2((-1 - shift - offset) as nat) as int;
        let half = vstd::arithmetic::power2::pow2(159) as int;
        vstd::arithmetic::power2::lemma_pow2_adds(
            (-1 - shift - offset) as nat,
            (shift + offset + 160) as nat,
        );
        vstd::arithmetic::power2::lemma_pow2_unfold(160);
        assert(k == 2 * half && half == p * unit);
        let steps = (2 * m - 1) * p;
        assert(num * big >= steps * unit) by (nonlinear_arith)
            requires
                2 * (num * big) >= (2 * m - 1) * k,
                k == 2 * (p * unit),
                steps == (2 * m - 1) * p,
        ;
        assert(steps * sd <= sn) by {
            if shift <= 0 {
                let q = vstd::arithmetic::power2::pow2((-shift) as nat) as int;
                vstd::arithmetic::power2::lemma_pow2_adds(
                    (-shift) as nat,
                    (shift + offset + 160) as nat,
                );
                vstd::arithmetic::power2::lemma2_to64();
                assert(sn == num * q) by {
                    if shift == 0 {
                        assert(num * q == num) by (nonlinear_arith)
                            requires
                                q == 1,
                        ;
                    }
                }
                assert(steps <= num * q) by (nonlinear_arith)
                    requires
                        num * (q * unit) >= steps * unit,
                        unit > 0,
                ;
            } else {
                let q = vstd::arithmetic::power2::pow2(shift as nat) as int;
                vstd::arithmetic::power2::lemma_pow2_adds(shift as nat, (offset + 160) as nat);
                vstd::arithmetic::power2::lemma_pow2_pos((offset + 160) as nat);
                assert(steps * q <= num) by (nonlinear_arith)
                    requires
                        num * big >= steps * (q * big),
                        big > 0,
                ;
                assert(sd == q);
            }
        }
        assert(rounded >= steps) by {
            let quotient = (sn / sd) as int;
            vstd::arithmetic::div_mod::lemma_fundamental_div_mod(sn as int, sd as int);
            assert(quotient >= steps) by (nonlinear_arith)
                requires
                    steps * sd <= sn,
                    sn < sd * quotient + sd,
                    sd > 0,
            ;
        }
        assert(2 * (rounded * unit) >= (2 * m - 1) * k) by (nonlinear_arith)
            requires
                rounded >= steps,
                steps == (2 * m - 1) * p,
                k == 2 * (p * unit),
                unit > 0,
        {
            assert(rounded * unit >= steps * unit);
            assert(steps * unit == (2 * m - 1) * (p * unit));
        }
    }
}

/// The exponent of a product is the sum of the exponents and the bits of one mantissa.
pub(crate) proof fn lemma_product_exponent(a: Single, b: Single)
    requires
        a.valid(),
        b.valid(),
        a.mantissa != 0,
        b.mantissa != 0,
        -80 <= a.exponent + b.exponent <= 70,
    ensures
        a.product(b).mantissa != 0,
        23 <= a.product(b).exponent - a.exponent - b.exponent <= 25,
{
    let ma = a.mantissa as int;
    let mb = b.mantissa as int;
    assert(0x80_0000 * 0x80_0000 <= ma * mb < 0x100_0000 * 0x100_0000) by (nonlinear_arith)
        requires
            0x80_0000 <= ma < 0x100_0000,
            0x80_0000 <= mb < 0x100_0000,
    ;
    let num = (ma * mb) as nat;
    let shift = crate::single::shift_of(num, 1);
    lemma_rounded_fixed(num, 1, a.exponent + b.exponent);
    vstd::arithmetic::power2::lemma2_to64();
    crate::single::lemma_shift_not_below(num, 1, shift, 23);
    crate::single::lemma_shift_not_below(num, 1, 24, shift);
}

/// The quotient is within one part in `2^24` of the exact one.
pub(crate) proof fn lemma_quotient(a: Single, b: Single)
    requires
        a.valid(),
        b.valid(),
        b.mantissa != 0,
        -80 <= a.exponent - b.exponent <= 70,
    ensures
        close(fixed(a.quotient(b)) * fixed(b) as int, fixed(a) * one() as int),
        a.quotient(b).valid(),
        a.mantissa != 0 ==> a.quotient(b).mantissa != 0,
        a.mantissa != 0 ==> -24 <= a.quotient(b).exponent - (a.exponent - b.exponent) <= -22,
{
    let ma = a.mantissa as int;
    let mb = b.mantissa as int;
    let pa = vstd::arithmetic::power2::pow2((a.exponent + 160) as nat) as int;
    let pb = vstd::arithmetic::power2::pow2((b.exponent + 160) as nat) as int;
    let p = vstd::arithmetic::power2::pow2((a.exponent - b.exponent + 160) as nat) as int;
    let r = fixed(a.quotient(b)) as int;
    let k = one() as int;
    if ma == 0 {
        assert((ma * pa) * k == 0) by (nonlinear_arith)
            requires
                ma == 0,
        ;
        assert(r == 0);
        assert(r * (mb * pb) == 0) by (nonlinear_arith)
            requires
                r == 0,
        ;
    } else {
        let num = a.mantissa as nat;
        let den = b.mantissa as nat;
        let shift = crate::single::shift_of(num, den);
        lemma_rounded_fixed(num, den, a.exponent - b.exponent);
        lemma_rounded(num, den, a.exponent - b.exponent);
        vstd::arithmetic::power2::lemma2_to64();
        assert(crate::single::shifted_num(num, -24) == num * 0x100_0000);
        assert(crate::single::shifted_num(num, -23) == num * 0x80_0000);
        crate::single::lemma_shift_not_below(num, den, shift, -24);
        crate::single::lemma_shift_not_below(num, den, -23, shift);
        lemma_within_scaled(r * mb, ma * p, 1, pb);
        vstd::arithmetic::power2::lemma_pow2_adds(
            (a.exponent - b.exponent + 160) as nat,
            (b.exponent + 160) as nat,
        );
        vstd::arithmetic::power2::lemma_pow2_adds((a.exponent + 160) as nat, 160);
        assert(p * pb == pa * k);
        assert(r * mb * pb == r * (mb * pb)) by (nonlinear_arith);
        assert(ma * p * pb == (ma * pa) * k) by (nonlinear_arith)
            requires
                p * pb == pa * k,
        ;
    }
}

/// `below` compares the values.
pub(crate) proof fn lemma_below(a: Single, b: Single)
    requires
        a.valid(),
        b.valid(),
    ensures
        a.below(b) <==> fixed(a) < fixed(b),
{
    let (ma, mb) = (a.mantissa as int, b.mantissa as int);
    let pa = vstd::arithmetic::power2::pow2((a.exponent + 160) as nat) as int;
    let pb = vstd::arithmetic::power2::pow2((b.exponent + 160) as nat) as int;
    vstd::arithmetic::power2::lemma_pow2_pos((a.exponent + 160) as nat);
    vstd::arithmetic::power2::lemma_pow2_pos((b.exponent + 160) as nat);
    if a.exponent < b.exponent {
        let p = vstd::arithmetic::power2::pow2((b.exponent - a.exponent) as nat) as int;
        vstd::arithmetic::power2::lemma_pow2_adds(
            (b.exponent - a.exponent) as nat,
            (a.exponent + 160) as nat,
        );
        assert(ma < mb * p <==> ma * pa < mb * (p * pa)) by (nonlinear_arith)
            requires
                pa > 0,
        ;
    } else if a.exponent > b.exponent {
        let p = vstd::arithmetic::power2::pow2((a.exponent - b.exponent) as nat) as int;
        vstd::arithmetic::power2::lemma_pow2_adds(
            (a.exponent - b.exponent) as nat,
            (b.exponent + 160) as nat,
        );
        assert(ma * p < mb <==> ma * (p * pb) < mb * pb) by (nonlinear_arith)
            requires
                pb > 0,
        ;
    } else {
        assert(ma < mb <==> ma * pa < mb * pa) by (nonlinear_arith)
            requires
                pa > 0,
        ;
    }
}

/// `to_nearest` is within half of the value, and takes the upper of two equally near.
pub(crate) proof fn lemma_to_nearest(s: Single)
    requires
        s.valid(),
    ensures
        2 * (s.to_nearest() * one()) <= 2 * fixed(s) + one() < 2 * (s.to_nearest() * one())
            + 2 * one(),
{
    let m = s.mantissa as int;
    let t = s.to_nearest() as int;
    let k = one() as int;
    vstd::arithmetic::power2::lemma_pow2_pos(160);
    if s.exponent >= 0 {
        let p = vstd::arithmetic::power2::pow2(s.exponent as nat) as int;
        vstd::arithmetic::power2::lemma_pow2_adds(s.exponent as nat, 160);
        assert(m * p * k == m * (p * k)) by (nonlinear_arith);
    } else {
        let unit = vstd::arithmetic::power2::pow2((-s.exponent) as nat) as int;
        let c = vstd::arithmetic::power2::pow2((s.exponent + 160) as nat) as int;
        vstd::arithmetic::power2::lemma_pow2_pos((-s.exponent) as nat);
        vstd::arithmetic::power2::lemma_pow2_pos((s.exponent + 160) as nat);
        vstd::arithmetic::power2::lemma_pow2_adds((-s.exponent) as nat, (s.exponent + 160) as nat);
        let n = 2 * m + unit;
        vstd::arithmetic::div_mod::lemma_fundamental_div_mod(n, 2 * unit);
        assert(2 * unit * t <= n < 2 * unit * t + 2 * unit);
        assert(2 * (t * (unit * c)) <= 2 * (m * c) + unit * c < 2 * (t * (unit * c)) + 2 * (unit
            * c)) by (nonlinear_arith)
            requires
                2 * unit * t <= 2 * m + unit < 2 * unit * t + 2 * unit,
                c > 0,
        ;
    }
}

/// Whole numbers up to `2^24` are exact, and larger ones are off by one part in `2^24` at most;
/// so are products and quotients. Numbers compare by their values, and become the nearest whole
/// number, halves going up, or the largest there is.
pub proof fn law_single_precision(
    n: u32,
    of_n: Single,
    a: Single,
    b: Single,
    product: Single,
    quotient: Single,
    below: bool,
    whole: u32,
)
    requires
        a.valid(),
        b.valid(),
        b.mantissa != 0,
        a.exponent <= 30,
        -80 <= a.exponent + b.exponent <= 70,
        -80 <= a.exponent - b.exponent <= 70,
        call_ensures(Single::from_u32, (n,), of_n),
        call_ensures(Single::times, (a, b), product),
        call_ensures(Single::over, (a, b), quotient),
        call_ensures(Single::is_below, (a, b), below),
        call_ensures(Single::round_to_u32, (a,), whole),
    ensures
        n <= 0x100_0000 ==> fixed(of_n) == n * one(),
        close(fixed(of_n) as int, n * one() as int),
        close(fixed(product) * one() as int, fixed(a) * fixed(b) as int),
        close(fixed(quotient) * fixed(b) as int, fixed(a) * one() as int),
        below <==> fixed(a) < fixed(b),
        whole < u32::MAX ==> 2 * (whole * one()) <= 2 * fixed(a) + one() < 2 * (whole * one()) + 2
            * one(),
        whole == u32::MAX ==> 2 * (whole * one()) <= 2 * fixed(a) + one(),
{
    lemma_of_int(n);
    lemma_product(a, b);
    lemma_quotient(a, b);
    lemma_below(a, b);
    lemma_to_nearest(a);
    let (t, k) = (a.to_nearest() as int, one() as int);
    assert(u32::MAX * k <= t * k || t < u32::MAX) by (nonlinear_arith)
        requires
            k >= 0,
    ;
}

} // verus!
