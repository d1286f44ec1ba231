//! What scaled sizes have to do with the sizes they are scaled from.
//!
//! Each single-precision operation is off by one part in `2^24` at most, so the laws allow
//! for a few such parts.

use crate::single::Single;
use crate::sizing::Monitor;
use vstd::prelude::*;

verus! {

/// A picture that is scaled down lands within the limit on both sides, with a pixel of each
/// at least, and no side that there was grows.
pub proof fn law_fit_shrinks_within_the_limit(w: u32, h: u32, max: u32)
    requires
        max >= 1,
        w > max || h > max,
    ensures
        crate::sizing::fitted(w as nat, h as nat, max as nat) matches Some((nw, nh)) && {
            &&& 1 <= nw <= max
            &&& 1 <= nh <= max
            &&& w >= 1 ==> nw <= w
            &&& h >= 1 ==> nh <= h
        },
{
}

/// A fitted side is a pixel at least, and of a side that there was not more than that.
pub(crate) proof fn lemma_fitted_in_range(w: u32, h: u32, max: u32)
    ensures
        crate::sizing::fitted(w as nat, h as nat, max as nat) matches Some((nw, nh)) ==> 1 <= nw
            <= u32::MAX && 1 <= nh <= u32::MAX && (w >= 1 ==> nw <= w) && (h >= 1 ==> nh <= h),
{
}

/// Width and height are treated alike: exchanging them exchanges the fitted sides.
pub proof fn law_fit_treats_sides_alike(w: u32, h: u32, max: u32)
    ensures
        crate::sizing::fitted(h as nat, w as nat, max as nat) == match crate::sizing::fitted(
            w as nat,
            h as nat,
            max as nat,
        ) {
            Some((nw, nh)) => Some((nh, nw)),
            None => None,
        },
{
    let limit = Single::of_int(max as nat);
    if w != 0 && h != 0 && max != 0 {
        let for_width = limit.quotient(Single::of_int(w as nat));
        let for_height = limit.quotient(Single::of_int(h as nat));
        crate::rounding::lemma_of_int(max);
        crate::rounding::lemma_of_int(w);
        crate::rounding::lemma_of_int(h);
        crate::rounding::lemma_quotient(limit, Single::of_int(w as nat));
        crate::rounding::lemma_quotient(limit, Single::of_int(h as nat));
        crate::single::lemma_order(for_width, for_height);
        crate::single::lemma_order(for_height, for_width);
    }
}

/// What `fit_scale` chooses, seen from the longer side: the ratio for that side, or one
/// that is no larger.
spec fn scale_for(long: u32, short: u32, max: u32, s: Single) -> bool {
    let for_long = Single::of_int(max as nat).quotient(Single::of_int(long as nat));
    let for_short = Single::of_int(max as nat).quotient(Single::of_int(short as nat));
    &&& 1 <= max < long
    &&& short <= long
    &&& s == for_long || (short != 0 && s == for_short)
    &&& crate::rounding::fixed(s) <= crate::rounding::fixed(for_long)
}

proof fn lemma_scale_for(w: u32, h: u32, max: u32)
    requires
        max >= 1,
        w > max || h > max,
    ensures
        w >= h ==> scale_for(w, h, max, crate::sizing::fit_scale(w as nat, h as nat, max as nat)),
        h >= w ==> scale_for(h, w, max, crate::sizing::fit_scale(w as nat, h as nat, max as nat)),
{
    let limit = Single::of_int(max as nat);
    crate::rounding::lemma_of_int(max);
    crate::rounding::lemma_of_int(w);
    crate::rounding::lemma_of_int(h);
    if w != 0 {
        crate::rounding::lemma_quotient(limit, Single::of_int(w as nat));
    }
    if h != 0 {
        crate::rounding::lemma_quotient(limit, Single::of_int(h as nat));
    }
    if w != 0 && h != 0 {
        crate::rounding::lemma_below(
            limit.quotient(Single::of_int(h as nat)),
            limit.quotient(Single::of_int(w as nat)),
        );
    }
}

/// The factor times the longer side is the limit, up to rounding the factor.
proof fn lemma_factor(long: u32, short: u32, max: u32, s: Single)
    requires
        scale_for(long, short, max, s),
    ensures
        s.valid(),
        s.mantissa != 0,
        -56 <= s.exponent <= 10,
        crate::rounding::within(
            crate::rounding::fixed(Single::of_int(long as nat)) * crate::rounding::fixed(s) as int,
            crate::rounding::fixed(Single::of_int(max as nat)) * crate::rounding::one() as int,
            1,
        ),
{
    let limit = Single::of_int(max as nat);
    let long_single = Single::of_int(long as nat);
    let short_single = Single::of_int(short as nat);
    crate::rounding::lemma_of_int(max);
    crate::rounding::lemma_of_int(long);
    crate::rounding::lemma_of_int(short);
    crate::rounding::lemma_of_int_monotone(short, long);
    crate::rounding::lemma_quotient(limit, long_single);
    let q = limit.quotient(long_single);
    let a = crate::rounding::fixed(long_single) as int;
    let b = crate::rounding::fixed(short_single) as int;
    let f = crate::rounding::fixed(s) as int;
    let fq = crate::rounding::fixed(q) as int;
    let exact = crate::rounding::fixed(limit) * crate::rounding::one() as int;
    assert(crate::rounding::within(fq * a, exact, 1));
    assert(a * f <= fq * a) by (nonlinear_arith)
        requires
            0 <= f <= fq,
            0 <= a,
    ;
    if s == q {
        assert(a * f == fq * a) by (nonlinear_arith)
            requires
                f == fq,
        ;
    } else {
        crate::rounding::lemma_quotient(limit, short_single);
        assert(crate::rounding::within(f * b, exact, 1));
        assert(f * b <= a * f) by (nonlinear_arith)
            requires
                0 <= b <= a,
                0 <= f,
        ;
    }
}

/// The longer side under the factor: the limit, up to five parts.
#[verifier::spinoff_prover]
proof fn lemma_long_side(long: u32, short: u32, max: u32, s: Single)
    requires
        scale_for(long, short, max, s),
    ensures
        crate::sizing::fit_side(long as nat, s, max as nat) <= max,
        max < 0x80_0000 ==> crate::sizing::fit_side(long as nat, s, max as nat) == max,
        0x100_0000 * (2 * (max - crate::sizing::fit_side(long as nat, s, max as nat)) - 1) <= 10
            * max,
{
    lemma_factor(long, short, max, s);
    crate::rounding::lemma_of_int(long);
    crate::rounding::lemma_of_int(max);
    let long_single = Single::of_int(long as nat);
    let product = long_single.product(s);
    crate::rounding::lemma_product(long_single, s);
    crate::rounding::lemma_to_nearest(product);
    vstd::arithmetic::power2::lemma_pow2_pos(160);
    let k = crate::rounding::one() as int;
    let p = crate::rounding::fixed(product) as int;
    let y = crate::rounding::fixed(long_single) * crate::rounding::fixed(s) as int;
    let l = crate::rounding::fixed(Single::of_int(max as nat)) as int;
    let m = max as int;
    let t = product.to_nearest() as int;
    assert(l * k >= 0 && m * k >= 0) by (nonlinear_arith)
        requires
            l >= 0,
            m >= 0,
            k >= 0,
    ;
    crate::rounding::lemma_within_chain(p * k, y, l * k, 1, 1);
    crate::rounding::lemma_within_unscaled(p, l, 3, k);
    crate::rounding::lemma_within_chain(p, l, m * k, 3, 1);
    assert(0x100_0000 * (2 * (m - t) - 1) <= 10 * m) by (nonlinear_arith)
        requires
            2 * p + k < 2 * (t * k) + 2 * k,
            -(5 * (m * k)) <= 0x100_0000 * (p - m * k),
            k > 0,
    {
        let d = 0x100_0000 * (2 * (m - t) - 1) - 10 * m;
        assert(d * k < 0);
    }
    if max < 0x80_0000 {
        assert(l == m * k);
        assert(2 * y >= (2 * m - 1) * k * k) by (nonlinear_arith)
            requires
                -(m * k * k) <= 0x100_0000 * (y - m * k * k),
                1 <= m < 0x80_0000,
                k > 0,
        {
            let kk = k * k;
            assert(m * k * k == m * kk);
            assert((2 * m - 1) * k * k == (2 * m - 1) * kk);
            assert(kk > 0);
            assert(m * kk <= 0x80_0000 * kk);
            assert((2 * m - 1) * kk == 2 * (m * kk) - kk);
        }
        crate::rounding::lemma_product_at_least(long_single, s, m);
        assert(t >= m) by (nonlinear_arith)
            requires
                2 * p >= (2 * m - 1) * k,
                2 * p + k < 2 * (t * k) + 2 * k,
                k > 0,
        {
            assert((2 * m - 1) * k == 2 * (m * k) - k);
            assert((m - t - 1) * k < 0);
        }
    }
}

/// The limit is used up: the longer side becomes exactly `max`. From a limit of `2^23` on,
/// where single precision no longer tells halves apart, it may be off by five parts in
/// `2^24` beyond the half pixel of rounding.
pub proof fn law_fit_uses_up_the_limit(w: u32, h: u32, max: u32)
    requires
        max >= 1,
        w > max || h > max,
    ensures
        crate::sizing::fitted(w as nat, h as nat, max as nat) matches Some((nw, nh)) && {
            let long = if w >= h {
                nw
            } else {
                nh
            };
            &&& w == h ==> nw == nh
            &&& long <= max
            &&& max < 0x80_0000 ==> long == max
            &&& 0x100_0000 * (2 * (max - long) - 1) <= 10 * max
        },
{
    let s = crate::sizing::fit_scale(w as nat, h as nat, max as nat);
    lemma_scale_for(w, h, max);
    if w >= h {
        lemma_long_side(w, h, max, s);
    } else {
        lemma_long_side(h, w, max, s);
    }
}

/// The shorter side under the factor: its exact share of the limit, up to ten parts.
#[verifier::spinoff_prover]
proof fn lemma_short_product(long: u32, short: u32, max: u32, s: Single)
    requires
        scale_for(long, short, max, s),
    ensures
        Single::of_int(short as nat).product(s).valid(),
        crate::rounding::within(
            crate::rounding::fixed(Single::of_int(short as nat).product(s)) * long as int,
            short * max * crate::rounding::one() as int,
            10,
        ),
{
    lemma_factor(long, short, max, s);
    crate::rounding::lemma_of_int(long);
    crate::rounding::lemma_of_int(short);
    crate::rounding::lemma_of_int(max);
    let short_single = Single::of_int(short as nat);
    let product = short_single.product(s);
    crate::rounding::lemma_product(short_single, s);
    vstd::arithmetic::power2::lemma_pow2_pos(160);
    let k = crate::rounding::one() as int;
    let p = crate::rounding::fixed(product) as int;
    let f = crate::rounding::fixed(s) as int;
    let a = crate::rounding::fixed(Single::of_int(long as nat)) as int;
    let b = crate::rounding::fixed(short_single) as int;
    let l = crate::rounding::fixed(Single::of_int(max as nat)) as int;
    let (wide, n, m) = (long as int, short as int, max as int);
    let share = n * m * k;
    // The product, times the long side as it is represented.
    assert(crate::rounding::within(p * a, b * l, 3)) by {
        crate::rounding::lemma_within_scaled(p * k, b * f, 1, a);
        crate::rounding::lemma_within_scaled(a * f, l * k, 1, b);
        assert(b * f * a == a * f * b) by (nonlinear_arith);
        assert(l * k * b >= 0) by (nonlinear_arith)
            requires
                l >= 0,
                k >= 0,
                b >= 0,
        ;
        crate::rounding::lemma_within_chain(p * k * a, b * f * a, l * k * b, 1, 1);
        assert(p * k * a == (p * a) * k) by (nonlinear_arith);
        assert(l * k * b == (b * l) * k) by (nonlinear_arith);
        crate::rounding::lemma_within_unscaled(p * a, b * l, 3, k);
    }
    // The sides and the limit as they are.
    assert(crate::rounding::within(p * a, share * k, 7)) by {
        crate::rounding::lemma_within_scaled(b, n * k, 1, l);
        crate::rounding::lemma_within_scaled(l, m * k, 1, n * k);
        assert(n * k * l == l * (n * k)) by (nonlinear_arith);
        assert(l * (n * k) >= 0 && (m * k) * (n * k) >= 0) by (nonlinear_arith)
            requires
                l >= 0,
                n >= 0,
                m >= 0,
                k >= 0,
        ;
        crate::rounding::lemma_within_chain(p * a, b * l, l * (n * k), 3, 1);
        crate::rounding::lemma_within_chain(p * a, l * (n * k), (m * k) * (n * k), 5, 1);
        assert((m * k) * (n * k) == (n * m * k) * k) by (nonlinear_arith);
    }
    assert(crate::rounding::within(p * wide, share, 10)) by {
        crate::rounding::lemma_within_scaled(a, wide * k, 1, p);
        assert(a * p == p * a) by (nonlinear_arith);
        assert((wide * k) * p == (p * wide) * k) by (nonlinear_arith);
        assert((p * wide) * k >= 0 && share * k >= 0) by (nonlinear_arith)
            requires
                share == n * m * k,
                p >= 0,
                wide >= 0,
                n >= 0,
                m >= 0,
                k >= 0,
        ;
        crate::rounding::lemma_within_reverse(p * a, (p * wide) * k, 1);
        crate::rounding::lemma_within_chain((p * wide) * k, p * a, share * k, 2, 7);
        crate::rounding::lemma_within_unscaled(p * wide, share, 10, k);
    }
}

#[verifier::spinoff_prover]
proof fn lemma_short_side(long: u32, short: u32, max: u32, s: Single)
    requires
        scale_for(long, short, max, s),
        1 <= short,
    ensures
        ({
            let side = crate::sizing::fit_side(short as nat, s, max as nat);
            let off = side * long - short * max;
            &&& 0x100_0000 * (2 * off - long) <= 20 * (short * max) || (side == 1 && 0x100_0000 * (2
                * (short * max) - long) <= 20 * (short * max))
            &&& 0x100_0000 * (-2 * off - long) <= 20 * (short * max)
            &&& 0x100_0000 * (off - long) <= 20 * (short * max)
            &&& 0x100_0000 * (-off - long) <= 20 * (short * max)
            &&& max <= 0xc_cccc ==> -(long as int) < off < long
        }),
{
    lemma_short_product(long, short, max, s);
    let product = Single::of_int(short as nat).product(s);
    crate::rounding::lemma_to_nearest(product);
    vstd::arithmetic::power2::lemma_pow2_pos(160);
    let k = crate::rounding::one() as int;
    let p = crate::rounding::fixed(product) as int;
    let (l, n, m) = (long as int, short as int, max as int);
    let t = product.to_nearest() as int;
    let share = n * m;
    assert(share >= 1) by (nonlinear_arith)
        requires
            share == n * m,
            n >= 1,
            m >= 1,
    ;
    let off = t * l - share;
    assert(0x100_0000 * (2 * off - l) <= 20 * share && 0x100_0000 * (-2 * off - l) <= 20 * share) by {
        let (tl, pl, sk, lk) = (t * l * k, p * l, share * k, l * k);
        assert(2 * tl <= 2 * pl + lk && 2 * pl + lk <= 2 * tl + 2 * lk) by (nonlinear_arith)
            requires
                tl == t * l * k,
                pl == p * l,
                lk == l * k,
                2 * (t * k) <= 2 * p + k,
                2 * p + k < 2 * (t * k) + 2 * k,
                l >= 0,
        {
            assert((2 * (t * k)) * l <= (2 * p + k) * l);
            assert((2 * p + k) * l <= (2 * (t * k) + 2 * k) * l);
        }
        assert(off * k == tl - sk) by (nonlinear_arith)
            requires
                off == t * l - share,
                tl == t * l * k,
                sk == share * k,
        ;
        let up = 0x100_0000 * (2 * off - l) - 20 * share;
        let down = 0x100_0000 * (-2 * off - l) - 20 * share;
        assert(up * k == 0x100_0000 * (2 * (off * k) - lk) - 20 * sk) by (nonlinear_arith)
            requires
                up == 0x100_0000 * (2 * off - l) - 20 * share,
                lk == l * k,
                sk == share * k,
        ;
        assert(down * k == 0x100_0000 * (-2 * (off * k) - lk) - 20 * sk) by (nonlinear_arith)
            requires
                down == 0x100_0000 * (-2 * off - l) - 20 * share,
                lk == l * k,
                sk == share * k,
        ;
        assert(up <= 0 && down <= 0) by (nonlinear_arith)
            requires
                up * k <= 0,
                down * k <= 0,
                k > 0,
        ;
    }
    assert(share <= l * m) by (nonlinear_arith)
        requires
            share == n * m,
            n <= l,
            m >= 0,
    ;
    assert(share <= n * l) by (nonlinear_arith)
        requires
            share == n * m,
            m <= l,
            n >= 0,
    ;
    if max <= 0xc_cccc {
        assert(20 * (l * m) < 0x100_0000 * l) by (nonlinear_arith)
            requires
                0 <= m <= 0xc_cccc,
                l >= 1,
        ;
        assert(-l < off < l);
    }
    let c = if n < m {
        n
    } else {
        m
    };
    if t > c {
        assert(c * l < t * l) by (nonlinear_arith)
            requires
                c < t,
                l > 0,
        ;
        assert(c * l >= share) by {
            assert(m * l == l * m) by (nonlinear_arith);
        }
    }
    assert(0 * l == 0 && 1 * l == l);
}

/// The aspect is kept: the shorter side is the nearest to its exact share of the limit, up to
/// twenty parts in `2^24` of that share. Only where it is raised to the one pixel that it has
/// at least it may be further away, as its share is half a pixel at most then. So it is less
/// than a pixel away, with those parts on top beyond a limit of `0xc_cccc`.
pub proof fn law_fit_keeps_the_aspect(w: u32, h: u32, max: u32)
    requires
        w >= 1,
        h >= 1,
        max >= 1,
        w > max || h > max,
    ensures
        crate::sizing::fitted(w as nat, h as nat, max as nat) matches Some((nw, nh)) && {
            let off = if w >= h {
                nh * w - h * max
            } else {
                nw * h - w * max
            };
            let long = if w >= h {
                w
            } else {
                h
            };
            let short = if w >= h {
                h
            } else {
                w
            };
            let side = if w >= h {
                nh
            } else {
                nw
            };
            &&& 0x100_0000 * (2 * off - long) <= 20 * (short * max) || (side == 1 && 0x100_0000 * (2
                * (short * max) - long) <= 20 * (short * max))
            &&& 0x100_0000 * (-2 * off - long) <= 20 * (short * max)
            &&& 0x100_0000 * (off - long) <= 20 * (short * max)
            &&& 0x100_0000 * (-off - long) <= 20 * (short * max)
            &&& max <= 0xc_cccc ==> -(long as int) < off < long
        },
{
    let s = crate::sizing::fit_scale(w as nat, h as nat, max as nat);
    lemma_scale_for(w, h, max);
    if w >= h {
        lemma_short_side(w, h, max, s);
    } else {
        lemma_short_side(h, w, max, s);
    }
}

/// Four fifths of a side, up to rounding.
proof fn lemma_box(m: u32)
    requires
        m >= 1,
    ensures
        ({
            let side = Single::of_int(m as nat).product(crate::sizing::four_fifths());
            &&& side.valid()
            &&& side.mantissa != 0
            &&& -24 <= side.exponent <= 10
            &&& crate::rounding::fixed(side) > 0
            &&& crate::rounding::close(
                0x100_0000 * crate::rounding::fixed(side) as int,
                13_421_773 * crate::rounding::fixed(Single::of_int(m as nat)) as int,
            )
        }),
{
    let whole = Single::of_int(m as nat);
    let side = whole.product(crate::sizing::four_fifths());
    crate::rounding::lemma_of_int(m);
    crate::rounding::lemma_product(whole, crate::sizing::four_fifths());
    crate::rounding::lemma_product_exponent(whole, crate::sizing::four_fifths());
    let k = crate::rounding::one() as int;
    let c = vstd::arithmetic::power2::pow2(136) as int;
    let a = crate::rounding::fixed(whole) as int;
    let b = crate::rounding::fixed(side) as int;
    assert(k == 0x100_0000 * c) by {
        vstd::arithmetic::power2::lemma_pow2_adds(24, 136);
        vstd::arithmetic::power2::lemma2_to64();
    }
    vstd::arithmetic::power2::lemma_pow2_pos(136);
    vstd::arithmetic::power2::lemma_pow2_pos((side.exponent + 160) as nat);
    assert(b > 0) by (nonlinear_arith)
        requires
            b == side.mantissa as int * vstd::arithmetic::power2::pow2(
                (side.exponent + 160) as nat,
            ),
            side.mantissa != 0,
            vstd::arithmetic::power2::pow2((side.exponent + 160) as nat) > 0,
    ;
    assert(crate::rounding::fixed(crate::sizing::four_fifths()) == 13_421_773 * c);
    assert(b * k == (0x100_0000 * b) * c) by (nonlinear_arith)
        requires
            k == 0x100_0000 * c,
    ;
    assert(a * (13_421_773 * c) == (13_421_773 * a) * c) by (nonlinear_arith);
    crate::rounding::lemma_within_unscaled(0x100_0000 * b, 13_421_773 * a, 1, c);
}

proof fn lemma_aspect(aspect_w: u32, aspect_h: u32)
    requires
        aspect_h != 0,
    ensures
        ({
            let aspect = Single::of_int(aspect_w as nat).quotient(Single::of_int(aspect_h as nat));
            &&& aspect.valid()
            &&& aspect_w != 0 ==> aspect.mantissa != 0
            &&& -56 <= aspect.exponent <= 10
            &&& crate::rounding::close(
                crate::rounding::fixed(aspect) * crate::rounding::fixed(
                    Single::of_int(aspect_h as nat),
                ) as int,
                crate::rounding::fixed(Single::of_int(aspect_w as nat))
                    * crate::rounding::one() as int,
            )
        }),
{
    crate::rounding::lemma_of_int(aspect_w);
    crate::rounding::lemma_of_int(aspect_h);
    crate::rounding::lemma_quotient(
        Single::of_int(aspect_w as nat),
        Single::of_int(aspect_h as nat),
    );
}

/// Before rounding to pixels, neither side exceeds its share of the monitor by more than
/// three parts in `2^24`.
#[verifier::spinoff_prover]
proof fn lemma_boxed_within(aspect_w: u32, aspect_h: u32, mon_w: u32, mon_h: u32)
    requires
        aspect_h != 0,
        mon_w >= 1,
        mon_h >= 1,
    ensures
        ({
            let (w, h) = crate::sizing::boxed(aspect_w as nat, aspect_h as nat, mon_w as nat, mon_h as nat);
            let box_w = Single::of_int(mon_w as nat).product(crate::sizing::four_fifths());
            let box_h = Single::of_int(mon_h as nat).product(crate::sizing::four_fifths());
            &&& w.valid()
            &&& h.valid()
            &&& w == box_w || h == box_h
            &&& 0xff_fffd * crate::rounding::fixed(w) <= 0x100_0000 * crate::rounding::fixed(box_w)
            &&& 0xff_fffd * crate::rounding::fixed(h) <= 0x100_0000 * crate::rounding::fixed(box_h)
        }),
{
    lemma_box(mon_w);
    lemma_box(mon_h);
    lemma_aspect(aspect_w, aspect_h);
    let aspect = Single::of_int(aspect_w as nat).quotient(Single::of_int(aspect_h as nat));
    let box_w = Single::of_int(mon_w as nat).product(crate::sizing::four_fifths());
    let box_h = Single::of_int(mon_h as nat).product(crate::sizing::four_fifths());
    let ratio = box_w.quotient(box_h);
    crate::rounding::lemma_quotient(box_w, box_h);
    crate::rounding::lemma_below(aspect, ratio);
    let k = crate::rounding::one() as int;
    vstd::arithmetic::power2::lemma_pow2_pos(160);
    let bw = crate::rounding::fixed(box_w) as int;
    let bh = crate::rounding::fixed(box_h) as int;
    let q = crate::rounding::fixed(ratio) as int;
    let a = crate::rounding::fixed(aspect) as int;
    if aspect.below(ratio) {
        let w = box_h.product(aspect);
        crate::rounding::lemma_product(box_h, aspect);
        let x = crate::rounding::fixed(w) as int;
        let (r, u, v) = (x * k, bh * a, bw * k);
        assert(bh * a <= q * bh) by (nonlinear_arith)
            requires
                a <= q,
                bh >= 0,
        ;
        assert(0xff_fffd * r <= 0x100_0000 * v);
        assert(0xff_fffd * x <= 0x100_0000 * bw) by (nonlinear_arith)
            requires
                0xff_fffd * (x * k) <= 0x100_0000 * (bw * k),
                k > 0,
        ;
    } else {
        assert(aspect.mantissa != 0) by {
            crate::single::lemma_order(aspect, ratio);
        }
        let h = box_w.quotient(aspect);
        crate::rounding::lemma_quotient(box_w, aspect);
        let y = crate::rounding::fixed(h) as int;
        vstd::arithmetic::power2::lemma_pow2_pos((ratio.exponent + 160) as nat);
        assert(q > 0) by (nonlinear_arith)
            requires
                q == ratio.mantissa as int * vstd::arithmetic::power2::pow2(
                    (ratio.exponent + 160) as nat,
                ),
                ratio.mantissa != 0,
                vstd::arithmetic::power2::pow2((ratio.exponent + 160) as nat) > 0,
        ;
        let (r, u, v) = (y * q, q * bh, bw * k);
        assert(y * q <= y * a) by (nonlinear_arith)
            requires
                q <= a,
                y >= 0,
        ;
        assert(0x100_0000 * r <= 0x100_0001 * v);
        assert(0xff_ffff * v <= 0x100_0000 * u);
        assert(0xff_fffd * r <= 0x100_0000 * u);
        assert(0xff_fffd * y <= 0x100_0000 * bh) by (nonlinear_arith)
            requires
                0xff_fffd * (y * q) <= 0x100_0000 * (q * bh),
                q > 0,
        ;
    }
}

/// The nearest whole number to something below `limit` pixels is not above it.
proof fn lemma_pixels_within(s: Single, limit: nat)
    requires
        s.valid(),
        limit >= 1,
        crate::rounding::fixed(s) <= limit * crate::rounding::one(),
    ensures
        crate::sizing::at_least_one(crate::sizing::min_of(s.to_nearest(), u32::MAX as nat)) <= limit,
{
    crate::rounding::lemma_to_nearest(s);
    vstd::arithmetic::power2::lemma_pow2_pos(160);
    let k = crate::rounding::one() as int;
    let t = s.to_nearest() as int;
    let l = limit as int;
    assert(t <= l) by (nonlinear_arith)
        requires
            2 * (t * k) <= 2 * (l * k) + k,
            k > 0,
    ;
}

/// The window is nowhere larger than the monitor, so it lies on it.
pub proof fn law_window_stays_on_the_monitor(aspect_w: u32, aspect_h: u32, monitor: Monitor)
    requires
        aspect_h != 0,
        1 <= monitor.w <= i32::MAX,
        1 <= monitor.h <= i32::MAX,
        monitor.x + monitor.w <= i32::MAX,
        monitor.y + monitor.h <= i32::MAX,
    ensures
        crate::sizing::placeable(aspect_w as nat, aspect_h as nat, monitor),
        ({
            let (w, h) = crate::sizing::window_size(
                aspect_w as nat,
                aspect_h as nat,
                monitor.w as nat,
                monitor.h as nat,
            );
            let x = crate::sizing::centered(monitor.x as int, monitor.w as nat, w);
            let y = crate::sizing::centered(monitor.y as int, monitor.h as nat, h);
            &&& monitor.x <= x
            &&& x + w <= monitor.x + monitor.w
            &&& monitor.y <= y
            &&& y + h <= monitor.y + monitor.h
        }),
{
    lemma_boxed_within(aspect_w, aspect_h, monitor.w, monitor.h);
    lemma_box(monitor.w);
    lemma_box(monitor.h);
    crate::rounding::lemma_of_int(monitor.w);
    crate::rounding::lemma_of_int(monitor.h);
    let (w, h) = crate::sizing::boxed(aspect_w as nat, aspect_h as nat, monitor.w as nat, monitor.h as nat);
    lemma_pixels_within(w, monitor.w as nat);
    lemma_pixels_within(h, monitor.h as nat);
}

/// The sides before rounding to pixels, in whole monitors: at most four fifths and a few
/// parts, and for one side at least that.
proof fn lemma_boxed_share(aspect_w: u32, aspect_h: u32, mon_w: u32, mon_h: u32)
    requires
        aspect_h != 0,
        mon_w >= 1,
        mon_h >= 1,
    ensures
        ({
            let (w, h) = crate::sizing::boxed(
                aspect_w as nat,
                aspect_h as nat,
                mon_w as nat,
                mon_h as nat,
            );
            let (x, y) = (5 * crate::rounding::fixed(w), 5 * crate::rounding::fixed(h));
            let (u, v) = (mon_w * crate::rounding::one(), mon_h * crate::rounding::one());
            &&& w.valid()
            &&& h.valid()
            &&& 0x100_0000 * x <= 0x400_001e * u
            &&& 0x100_0000 * y <= 0x400_001e * v
            &&& 0x100_0000 * x >= 0x3ff_ffe2 * u || 0x100_0000 * y >= 0x3ff_ffe2 * v
        }),
{
    lemma_boxed_within(aspect_w, aspect_h, mon_w, mon_h);
    lemma_box(mon_w);
    lemma_box(mon_h);
    crate::rounding::lemma_of_int(mon_w);
    crate::rounding::lemma_of_int(mon_h);
}

/// A number of pixels is the nearest to what it was rounded from, or the one pixel that
/// there is at least.
proof fn lemma_pixels(s: Single)
    requires
        s.valid(),
        s.to_nearest() <= u32::MAX,
    ensures
        ({
            let pixels = crate::sizing::at_least_one(
                crate::sizing::min_of(s.to_nearest(), u32::MAX as nat),
            );
            let (f, k) = (crate::rounding::fixed(s), crate::rounding::one());
            &&& k > 0
            &&& pixels > 1 ==> 2 * (pixels * k) <= 2 * f + k
            &&& 2 * f >= k ==> 2 * (pixels * k) <= 2 * f + k
            &&& 2 * f + k <= 2 * (pixels * k) + 2 * k
        }),
{
    crate::rounding::lemma_to_nearest(s);
    vstd::arithmetic::power2::lemma_pow2_pos(160);
    let k = crate::rounding::one() as int;
    assert(0 * k == 0 && 1 * k == k);
}

proof fn lemma_pixels_of_boxed(s: Single, limit: u32)
    requires
        s.valid(),
        0x100_0000 * (5 * crate::rounding::fixed(s)) <= 0x400_001e * (limit
            * crate::rounding::one()),
    ensures
        s.to_nearest() <= u32::MAX,
{
    crate::rounding::lemma_to_nearest(s);
    vstd::arithmetic::power2::lemma_pow2_pos(160);
    let k = crate::rounding::one() as int;
    let f = crate::rounding::fixed(s) as int;
    let t = s.to_nearest() as int;
    let l = limit as int;
    assert(t <= l + 1) by (nonlinear_arith)
        requires
            2 * (t * k) <= 2 * f + k,
            0x100_0000 * (5 * f) <= 0x400_001e * (l * k),
            k > 0,
            l >= 0,
    {
        assert(l * k >= 0);
        assert(f <= l * k);
        assert(2 * ((t - l) * k) <= k);
    }
    if t == l + 1 {
        assert(2 * (t * k) == 2 * (l * k) + 2 * k) by (nonlinear_arith)
            requires
                t == l + 1,
        ;
        assert(l * k >= 0) by (nonlinear_arith)
            requires
                l >= 0,
                k > 0,
        ;
    }
}

/// The window is the largest that fits: neither side is more than four fifths of the
/// monitor's, and one of them is that, each to the nearest pixel and up to eight parts in
/// `2^24`: `0x800_003c` and `0x7ff_ffc4` are `8 * 2^24` with sixty more and less.
pub proof fn law_window_takes_four_fifths(aspect_w: u32, aspect_h: u32, mon_w: u32, mon_h: u32)
    requires
        aspect_h != 0,
        mon_w >= 1,
        mon_h >= 1,
    ensures
        ({
            let (w, h) = crate::sizing::window_size(
                aspect_w as nat,
                aspect_h as nat,
                mon_w as nat,
                mon_h as nat,
            );
            &&& 0x100_0000 * (5 * (2 * w - 1)) <= 0x800_003c * mon_w
            &&& 0x100_0000 * (5 * (2 * h - 1)) <= 0x800_003c * mon_h
            &&& 0x100_0000 * (5 * (2 * w + 1)) >= 0x7ff_ffc4 * mon_w || 0x100_0000 * (5
                * (2 * h + 1)) >= 0x7ff_ffc4 * mon_h
        }),
{
    lemma_boxed_share(aspect_w, aspect_h, mon_w, mon_h);
    let (ws, hs) = crate::sizing::boxed(
        aspect_w as nat,
        aspect_h as nat,
        mon_w as nat,
        mon_h as nat,
    );
    lemma_share_in_pixels(ws, mon_w);
    lemma_share_in_pixels(hs, mon_h);
}

#[verifier::spinoff_prover]
proof fn lemma_share_in_pixels(s: Single, limit: u32)
    requires
        s.valid(),
        limit >= 1,
        0x100_0000 * (5 * crate::rounding::fixed(s)) <= 0x400_001e * (limit
            * crate::rounding::one()),
    ensures
        ({
            let pixels = crate::sizing::at_least_one(
                crate::sizing::min_of(s.to_nearest(), u32::MAX as nat),
            );
            &&& 0x100_0000 * (5 * (2 * pixels - 1)) <= 0x800_003c * limit
            &&& 0x100_0000 * (5 * crate::rounding::fixed(s)) >= 0x3ff_ffe2 * (limit
                * crate::rounding::one()) ==> 0x100_0000 * (5 * (2 * pixels + 1)) >= 0x7ff_ffc4 * limit
        }),
{
    lemma_pixels_of_boxed(s, limit);
    lemma_pixels(s);
    let pixels = crate::sizing::at_least_one(
        crate::sizing::min_of(s.to_nearest(), u32::MAX as nat),
    ) as int;
    let k = crate::rounding::one() as int;
    let f = crate::rounding::fixed(s) as int;
    let (l, lk, pk) = (limit as int, limit * k, pixels * k);
    if pixels > 1 {
        let over = 0x100_0000 * (5 * (2 * pixels - 1)) - 0x800_003c * l;
        assert(over * k == 0x100_0000 * (5 * (2 * pk - k)) - 0x800_003c * lk)
            by (nonlinear_arith)
            requires
                over == 0x100_0000 * (5 * (2 * pixels - 1)) - 0x800_003c * l,
                pk == pixels * k,
                lk == l * k,
        ;
        assert(over <= 0) by (nonlinear_arith)
            requires
                over * k <= 0,
                k > 0,
        ;
    }
    if 0x100_0000 * (5 * f) >= 0x3ff_ffe2 * lk {
        let under = 0x7ff_ffc4 * l - 0x100_0000 * (5 * (2 * pixels + 1));
        assert(under * k == 0x7ff_ffc4 * lk - 0x100_0000 * (5 * (2 * pk + k)))
            by (nonlinear_arith)
            requires
                under == 0x7ff_ffc4 * l - 0x100_0000 * (5 * (2 * pixels + 1)),
                pk == pixels * k,
                lk == l * k,
        ;
        assert(under <= 0) by (nonlinear_arith)
            requires
                under * k <= 0,
                k > 0,
        ;
    }
}

/// Before rounding to pixels, the sides stand in the ratio of the picture's, up to eleven
/// parts.
#[verifier::spinoff_prover]
proof fn lemma_boxed_ratio(aspect_w: u32, aspect_h: u32, mon_w: u32, mon_h: u32)
    requires
        aspect_w >= 1,
        aspect_h >= 1,
        mon_w >= 1,
        mon_h >= 1,
    ensures
        ({
            let (w, h) = crate::sizing::boxed(
                aspect_w as nat,
                aspect_h as nat,
                mon_w as nat,
                mon_h as nat,
            );
            crate::rounding::within(
                crate::rounding::fixed(h) * aspect_w as int,
                crate::rounding::fixed(w) * aspect_h as int,
                9,
            )
        }),
{
    lemma_box(mon_w);
    lemma_box(mon_h);
    lemma_aspect(aspect_w, aspect_h);
    crate::rounding::lemma_of_int(aspect_w);
    crate::rounding::lemma_of_int(aspect_h);
    let aspect = Single::of_int(aspect_w as nat).quotient(Single::of_int(aspect_h as nat));
    let box_w = Single::of_int(mon_w as nat).product(crate::sizing::four_fifths());
    let box_h = Single::of_int(mon_h as nat).product(crate::sizing::four_fifths());
    let ratio = box_w.quotient(box_h);
    let k = crate::rounding::one() as int;
    vstd::arithmetic::power2::lemma_pow2_pos(160);
    let (w, h) = crate::sizing::boxed(
        aspect_w as nat,
        aspect_h as nat,
        mon_w as nat,
        mon_h as nat,
    );
    let x = crate::rounding::fixed(w) as int;
    let y = crate::rounding::fixed(h) as int;
    let a = crate::rounding::fixed(aspect) as int;
    let (aw, ah) = (aspect_w as int, aspect_h as int);
    let fw = crate::rounding::fixed(Single::of_int(aspect_w as nat)) as int;
    let fh = crate::rounding::fixed(Single::of_int(aspect_h as nat)) as int;
    assert(x * fh >= 0 && y * fw >= 0 && x * ah * k >= 0 && y * fw * k >= 0 && x * fh * k >= 0)
        by (nonlinear_arith)
        requires
            x >= 0,
            y >= 0,
            fw >= 0,
            fh >= 0,
            ah >= 0,
            k >= 0,
    ;
    crate::rounding::lemma_within_scaled(a * fh, fw * k, 1, y);
    assert(a * fh * y == (y * a) * fh) by (nonlinear_arith);
    assert(fw * k * y == y * fw * k) by (nonlinear_arith);
    if aspect.below(ratio) {
        crate::rounding::lemma_product(box_h, aspect);
        crate::rounding::lemma_within_scaled(x * k, y * a, 1, fh);
        assert(x * k * fh == x * fh * k) by (nonlinear_arith);
        crate::rounding::lemma_within_chain(x * fh * k, y * a * fh, y * fw * k, 1, 1);
        crate::rounding::lemma_within_unscaled(x * fh, y * fw, 3, k);
        crate::rounding::lemma_within_reverse(x * fh, y * fw, 3);
    } else {
        crate::rounding::lemma_quotient(box_w, box_h);
        crate::single::lemma_order(aspect, ratio);
        crate::rounding::lemma_quotient(box_w, aspect);
        crate::rounding::lemma_within_scaled(y * a, x * k, 1, fh);
        assert(x * k * fh == x * fh * k) by (nonlinear_arith);
        crate::rounding::lemma_within_reverse((y * a) * fh, y * fw * k, 1);
        crate::rounding::lemma_within_chain(y * fw * k, (y * a) * fh, x * fh * k, 2, 1);
        crate::rounding::lemma_within_unscaled(y * fw, x * fh, 4, k);
    }
    assert(crate::rounding::within(y * fw, x * fh, 4));
    crate::rounding::lemma_within_scaled(fw, aw * k, 1, y);
    crate::rounding::lemma_within_scaled(fh, ah * k, 1, x);
    assert(fw * y == y * fw) by (nonlinear_arith);
    assert(fh * x == x * fh) by (nonlinear_arith);
    assert(aw * k * y == (y * aw) * k) by (nonlinear_arith);
    assert(ah * k * x == (x * ah) * k) by (nonlinear_arith);
    assert((y * aw) * k >= 0) by (nonlinear_arith)
        requires
            y >= 0,
            aw >= 0,
            k >= 0,
    ;
    crate::rounding::lemma_within_reverse(y * fw, (y * aw) * k, 1);
    crate::rounding::lemma_within_chain((y * aw) * k, y * fw, x * fh, 2, 4);
    crate::rounding::lemma_within_chain((y * aw) * k, x * fh, (x * ah) * k, 7, 1);
    crate::rounding::lemma_within_unscaled(y * aw, x * ah, 9, k);
}

/// The window keeps the picture's ratio: the sides multiplied crosswise by the ratio are
/// within half a pixel on each side, up to nine parts in `2^24`. Only where a side is raised
/// to the one pixel that it has at least it may be too long: then its exact match for the
/// other side is half a pixel at most, give or take half a pixel of that other side.
pub proof fn law_window_keeps_the_ratio(aspect_w: u32, aspect_h: u32, mon_w: u32, mon_h: u32)
    requires
        aspect_w >= 1,
        aspect_h >= 1,
        mon_w >= 1,
        mon_h >= 1,
    ensures
        ({
            let (w, h) = crate::sizing::window_size(
                aspect_w as nat,
                aspect_h as nat,
                mon_w as nat,
                mon_h as nat,
            );
            let off = w * aspect_h - h * aspect_w;
            let halves = aspect_w + aspect_h;
            let parts = 18 * ((w + 1) * aspect_h);
            &&& 0x100_0000 * (2 * off - halves) <= parts || (w == 1 && 0x100_0000 * (2 * (h
                * aspect_w) - halves) <= 9 * aspect_h)
            &&& 0x100_0000 * (-2 * off - halves) <= parts || (h == 1 && 0x100_0000 * (2 * (w
                * aspect_h) - halves) <= 10 * aspect_w)
        }),
{
    lemma_boxed_ratio(aspect_w, aspect_h, mon_w, mon_h);
    lemma_boxed_share(aspect_w, aspect_h, mon_w, mon_h);
    let (ws, hs) = crate::sizing::boxed(
        aspect_w as nat,
        aspect_h as nat,
        mon_w as nat,
        mon_h as nat,
    );
    let (w, h) = crate::sizing::window_size(
        aspect_w as nat,
        aspect_h as nat,
        mon_w as nat,
        mon_h as nat,
    );
    lemma_pixels_of_boxed(ws, mon_w);
    lemma_pixels_of_boxed(hs, mon_h);
    lemma_pixels(ws);
    lemma_pixels(hs);
    let k = crate::rounding::one() as int;
    let x = crate::rounding::fixed(ws) as int;
    let y = crate::rounding::fixed(hs) as int;
    let (aw, ah) = (aspect_w as int, aspect_h as int);
    assert(mon_w * k >= k && mon_h * k >= k) by (nonlinear_arith)
        requires
            mon_w >= 1,
            mon_h >= 1,
            k > 0,
    ;
    assert(y * aw >= 0 && x * ah >= 0) by (nonlinear_arith)
        requires
            x >= 0,
            y >= 0,
            aw >= 1,
            ah >= 1,
    ;
    lemma_crosswise(w as int, h as int, x, y, aw, ah, k);
    if 2 * x < k {
        assert(2 * y >= k);
        lemma_raised_side(h as int, x, y, aw, ah, 9, k);
    }
    if 2 * y < k {
        assert(2 * x >= k);
        crate::rounding::lemma_within_reverse(y * aw, x * ah, 9);
        lemma_raised_side(w as int, y, x, ah, aw, 10, k);
    }
}

/// A side below half a pixel, seen from the other side `h`, whose exact length is `y`.
proof fn lemma_raised_side(h: int, x: int, y: int, aw: int, ah: int, parts: int, k: int)
    requires
        2 * x < k,
        2 * (h * k) <= 2 * y + k,
        crate::rounding::within(y * aw, x * ah, parts),
        0 <= parts <= 100,
        x >= 0,
        aw >= 1,
        ah >= 1,
        k > 0,
    ensures
        0x100_0000 * (2 * (h * aw) - (aw + ah)) <= parts * ah,
{
    let (p, q, xa, ya, exact) = (ah * k, aw * k, x * ah, y * aw, h * aw);
    assert(2 * xa <= p) by (nonlinear_arith)
        requires
            p == ah * k,
            xa == x * ah,
            2 * x < k,
            ah >= 1,
    ;
    assert(2 * (exact * k) <= 2 * ya + q) by (nonlinear_arith)
        requires
            exact == h * aw,
            ya == y * aw,
            q == aw * k,
            2 * (h * k) <= 2 * y + k,
            aw >= 1,
    {
        assert((2 * (h * k)) * aw <= (2 * y + k) * aw);
    }
    assert(2 * (parts * xa) <= parts * p) by (nonlinear_arith)
        requires
            2 * xa <= p,
            parts >= 0,
    ;
    let over = 0x100_0000 * (2 * exact - (aw + ah)) - parts * ah;
    assert(over * k == 0x100_0000 * (2 * (exact * k) - q - p) - parts * p) by (nonlinear_arith)
        requires
            over == 0x100_0000 * (2 * exact - (aw + ah)) - parts * ah,
            p == ah * k,
            q == aw * k,
    ;
    assert(over <= 0) by (nonlinear_arith)
        requires
            over * k <= 0,
            k > 0,
    ;
}

/// Sides rounded to pixels, multiplied crosswise: one is too long only if it was raised.
proof fn lemma_crosswise(w: int, h: int, x: int, y: int, aw: int, ah: int, k: int)
    requires
        w >= 0,
        2 * x + k <= 2 * (w * k) + 2 * k,
        2 * y + k <= 2 * (h * k) + 2 * k,
        crate::rounding::within(y * aw, x * ah, 9),
        aw >= 1,
        ah >= 1,
        k > 0,
    ensures
        2 * (w * k) <= 2 * x + k ==> 0x100_0000 * (2 * (w * ah - h * aw) - (aw + ah)) <= 18 * ((w
            + 1) * ah),
        2 * (h * k) <= 2 * y + k ==> 0x100_0000 * (-2 * (w * ah - h * aw) - (aw + ah)) <= 18 * ((w
            + 1) * ah),
{
    let (u, v) = (w * k - x, h * k - y);
    let (p, q) = (ah * k, aw * k);
    let off = w * ah - h * aw;
    let room = (w + 1) * ah;
    assert(-p <= 2 * (u * ah)) by (nonlinear_arith)
        requires
            p == ah * k,
            -k <= 2 * u,
            ah >= 1,
    ;
    assert(-q <= 2 * (v * aw)) by (nonlinear_arith)
        requires
            q == aw * k,
            -k <= 2 * v,
            aw >= 1,
    ;
    if 2 * u <= k {
        assert(2 * (u * ah) <= p) by (nonlinear_arith)
            requires
                p == ah * k,
                2 * u <= k,
                ah >= 1,
        ;
    }
    if 2 * v <= k {
        assert(2 * (v * aw) <= q) by (nonlinear_arith)
            requires
                q == aw * k,
                2 * v <= k,
                aw >= 1,
        ;
    }
    assert(off * k == u * ah - v * aw + (x * ah - y * aw)) by (nonlinear_arith)
        requires
            off == w * ah - h * aw,
            u == w * k - x,
            v == h * k - y,
    ;
    assert(x * ah <= room * k) by (nonlinear_arith)
        requires
            room == (w + 1) * ah,
            2 * x + k <= 2 * (w * k) + 2 * k,
            ah >= 1,
            k > 0,
    {
        assert(x <= w * k + k);
        assert(x * ah <= (w * k + k) * ah);
        assert((w * k + k) * ah == ((w + 1) * ah) * k);
    }
    let up = 0x100_0000 * (2 * off - (aw + ah)) - 18 * room;
    let down = 0x100_0000 * (-2 * off - (aw + ah)) - 18 * room;
    assert(up * k == 0x100_0000 * (2 * (off * k) - q - p) - 18 * (room * k)) by (nonlinear_arith)
        requires
            up == 0x100_0000 * (2 * off - (aw + ah)) - 18 * room,
            p == ah * k,
            q == aw * k,
    ;
    assert(down * k == 0x100_0000 * (-2 * (off * k) - q - p) - 18 * (room * k)) by (nonlinear_arith)
        requires
            down == 0x100_0000 * (-2 * off - (aw + ah)) - 18 * room,
            p == ah * k,
            q == aw * k,
    ;
    if 2 * u <= k {
        assert(up <= 0) by (nonlinear_arith)
            requires
                up * k <= 0,
                k > 0,
        ;
    }
    if 2 * v <= k {
        assert(down <= 0) by (nonlinear_arith)
            requires
                down * k <= 0,
                k > 0,
        ;
    }
}

/// Fitting leaves alone exactly what is within the limit. Anything else gets sides of a pixel
/// at least, within the limit and no longer than they were; the longer one is the limit; and a
/// side that there was not becomes one pixel. A limit of nothing leaves a pixel.
pub proof fn law_pictures_are_fitted(w: u32, h: u32, max: u32, r: Option<(u32, u32)>)
    requires
        call_ensures(crate::sizing::fit_dims, (w, h, max), r),
    ensures
        r is None <==> w <= max && h <= max,
        r matches Some((nw, nh)) ==> {
            &&& max == 0 ==> nw == 1 && nh == 1
            &&& max >= 1 ==> 1 <= nw <= max && 1 <= nh <= max
            &&& w >= 1 ==> nw <= w
            &&& h >= 1 ==> nh <= h
            &&& w == 0 ==> nw == 1
            &&& h == 0 ==> nh == 1
            &&& 1 <= max < 0x80_0000 && w >= h ==> nw == max
            &&& 1 <= max < 0x80_0000 && h >= w ==> nh == max
            &&& 1 <= max <= 0xc_cccc && w >= h >= 1 ==> -(w as int) < nh * w - h * max < w
            &&& 1 <= max <= 0xc_cccc && h >= w >= 1 ==> -(h as int) < nw * h - w * max < h
        },
{
    lemma_fitted_in_range(w, h, max);
    if (w > max || h > max) && max >= 1 {
        law_fit_shrinks_within_the_limit(w, h, max);
        law_fit_uses_up_the_limit(w, h, max);
        law_fit_treats_sides_alike(w, h, max);
        if w >= 1 && h >= 1 {
            law_fit_keeps_the_aspect(w, h, max);
        }
    }
    vstd::arithmetic::power2::lemma2_to64();
}

/// Centering leaves as much on one side as on the other, up to the odd pixel, which is on the
/// far side if the window is the smaller one and on the near side if it is the larger one.
pub proof fn law_centering_is_even(from: int, outer: nat, inner: nat)
    ensures
        ({
            let near = crate::sizing::centered(from, outer, inner) - from;
            let far = outer - inner - near;
            &&& inner <= outer ==> 0 <= near <= far <= near + 1
            &&& outer <= inner ==> near - 1 <= far <= near <= 0
        }),
{
}

/// Where a window goes: nowhere new in fullscreen, maximized, for a picture without a height,
/// or without a monitor. Else it gets four fifths of the monitor in one direction, no more in
/// the other, the ratio of the picture, and the middle of the monitor.
pub proof fn law_windows_are_placed(
    monitor: Option<Monitor>,
    maximized: bool,
    aspect_w: u32,
    aspect_h: u32,
    fullscreen: bool,
    r: Option<(u32, u32, i32, i32)>,
)
    requires
        call_ensures(
            crate::sizing::fit_window_to_aspect,
            (monitor, maximized, aspect_w, aspect_h, fullscreen),
            r,
        ),
    ensures
        r is Some <==> !fullscreen && !maximized && aspect_h != 0 && monitor is Some,
        r matches Some(placed) ==> well_placed(aspect_w, aspect_h, monitor->0, placed),
{
    if let Some(placed) = r {
        lemma_well_placed(aspect_w, aspect_h, monitor->0, placed);
    }
}

/// The size and corner that a window should have, by the same rules.
pub proof fn law_windows_take_four_fifths(
    aspect_w: u32,
    aspect_h: u32,
    monitor: Monitor,
    r: (u32, u32, i32, i32),
)
    requires
        call_ensures(
            crate::sizing::fit_80_dims,
            (aspect_w, aspect_h, monitor.w, monitor.h, monitor.x, monitor.y),
            r,
        ),
        aspect_h != 0,
    ensures
        well_placed(aspect_w, aspect_h, monitor, r),
{
    lemma_well_placed(aspect_w, aspect_h, monitor, r);
}

/// A window of width, height, column and row is where it should be on the monitor.
pub open spec fn well_placed(
    aspect_w: u32,
    aspect_h: u32,
    m: Monitor,
    placed: (u32, u32, i32, i32),
) -> bool {
    let (w, h, x, y) = placed;
    let (left, top) = (x - m.x, y - m.y);
    let (right, bottom) = (m.w - w - left, m.h - h - top);
    &&& w >= 1 && h >= 1
    &&& w <= m.w ==> 0 <= left <= right <= left + 1
    &&& w > m.w ==> left - 1 <= right <= left <= 0
    &&& h <= m.h ==> 0 <= top <= bottom <= top + 1
    &&& h > m.h ==> top - 1 <= bottom <= top <= 0
    &&& m.w == 0 || m.h == 0 ==> w == 1 && h == 1
    &&& m.w >= 1 && m.h >= 1 ==> {
        &&& 0x100_0000 * (5 * (2 * w - 1)) <= 0x800_003c * m.w
        &&& 0x100_0000 * (5 * (2 * h - 1)) <= 0x800_003c * m.h
        &&& 0x100_0000 * (5 * (2 * w + 1)) >= 0x7ff_ffc4 * m.w || 0x100_0000 * (5 * (2 * h + 1))
            >= 0x7ff_ffc4 * m.h
    }
    &&& m.w >= 1 && m.h >= 1 && aspect_w >= 1 ==> {
        let off = w * aspect_h - h * aspect_w;
        let halves = aspect_w + aspect_h;
        let parts = 18 * ((w + 1) * aspect_h);
        &&& 0x100_0000 * (2 * off - halves) <= parts || (w == 1 && 0x100_0000 * (2 * (h * aspect_w)
            - halves) <= 9 * aspect_h)
        &&& 0x100_0000 * (-2 * off - halves) <= parts || (h == 1 && 0x100_0000 * (2 * (w
            * aspect_h) - halves) <= 10 * aspect_w)
    }
}

proof fn lemma_well_placed(
    aspect_w: u32,
    aspect_h: u32,
    m: Monitor,
    placed: (u32, u32, i32, i32),
)
    requires
        aspect_h != 0,
        ({
            let (w, h, x, y) = placed;
            &&& (w as nat, h as nat) == crate::sizing::window_size(
                aspect_w as nat,
                aspect_h as nat,
                m.w as nat,
                m.h as nat,
            )
            &&& x == crate::sizing::centered(m.x as int, m.w as nat, w as nat)
            &&& y == crate::sizing::centered(m.y as int, m.h as nat, h as nat)
        }),
    ensures
        well_placed(aspect_w, aspect_h, m, placed),
{
    let (w, h, x, y) = placed;
    law_centering_is_even(m.x as int, m.w as nat, w as nat);
    law_centering_is_even(m.y as int, m.h as nat, h as nat);
    if m.w >= 1 && m.h >= 1 {
        law_window_takes_four_fifths(aspect_w, aspect_h, m.w, m.h);
        if aspect_w >= 1 {
            law_window_keeps_the_ratio(aspect_w, aspect_h, m.w, m.h);
        }
    } else {
        vstd::arithmetic::power2::lemma2_to64();
    }
}

/// A length of `inner` that starts at `corner` leaves as much on one side of the `outer` one that
/// starts at `from` as on the other; an odd pixel is on the far side, or on the near side if the
/// `inner` length is the larger one.
pub open spec fn even_corner(corner: int, from: int, outer: int, inner: int) -> bool {
    let near = corner - from;
    let far = outer - inner - near;
    if inner <= outer {
        0 <= near <= far <= near + 1
    } else {
        near - 1 <= far <= near <= 0
    }
}

proof fn lemma_even_corner(from: i32, outer: u32, inner: nat)
    ensures
        (exists|corner: i32|
            #![trigger even_corner(corner as int, from as int, outer as int, inner as int)]
            even_corner(corner as int, from as int, outer as int, inner as int)) <==> i32::MIN
            <= crate::sizing::centered(from as int, outer as nat, inner) <= i32::MAX,
{
    let c = crate::sizing::centered(from as int, outer as nat, inner);
    if i32::MIN <= c <= i32::MAX {
        assert(even_corner((c as i32) as int, from as int, outer as int, inner as int));
    }
    if exists|corner: i32|
        #![trigger even_corner(corner as int, from as int, outer as int, inner as int)]
        even_corner(corner as int, from as int, outer as int, inner as int) {
        let corner = choose|corner: i32|
            #![trigger even_corner(corner as int, from as int, outer as int, inner as int)]
            even_corner(corner as int, from as int, outer as int, inner as int);
        assert(corner == c);
    }
}

/// A window can be placed on every monitor that ends within the coordinates there are, and on
/// none that is larger than them: exactly if the sizes, and the corner that leaves as much on
/// one side as on the other, are within them. Wherever it can, its place can be asked for.
pub proof fn law_monitors_within_reach_are_fine(
    aspect_w: u32,
    aspect_h: u32,
    monitor: Monitor,
    r: bool,
)
    requires
        call_ensures(crate::sizing::is_placeable, (aspect_w, aspect_h, monitor), r),
        aspect_h != 0,
    ensures
        1 <= monitor.w <= i32::MAX && 1 <= monitor.h <= i32::MAX && monitor.x + monitor.w
            <= i32::MAX && monitor.y + monitor.h <= i32::MAX ==> r,
        monitor.w > i32::MAX || monitor.h > i32::MAX ==> !r,
        r ==> call_requires(
            crate::sizing::fit_80_dims,
            (aspect_w, aspect_h, monitor.w, monitor.h, monitor.x, monitor.y),
        ),
        r ==> call_requires(
            crate::sizing::fit_window_to_aspect,
            (Some(monitor), false, aspect_w, aspect_h, false),
        ),
        call_requires(
            crate::sizing::fit_window_to_aspect,
            (Some(monitor), false, aspect_w, aspect_h, true),
        ),
        call_requires(
            crate::sizing::fit_window_to_aspect,
            (Some(monitor), true, aspect_w, aspect_h, false),
        ),
        ({
            let (w, h) = crate::sizing::window_size(
                aspect_w as nat,
                aspect_h as nat,
                monitor.w as nat,
                monitor.h as nat,
            );
            r <==> {
                &&& monitor.w <= i32::MAX && monitor.h <= i32::MAX && w <= i32::MAX && h <= i32::MAX
                &&& exists|x: i32|
                    #![trigger even_corner(x as int, monitor.x as int, monitor.w as int, w as int)]
                    even_corner(x as int, monitor.x as int, monitor.w as int, w as int)
                &&& exists|y: i32|
                    #![trigger even_corner(y as int, monitor.y as int, monitor.h as int, h as int)]
                    even_corner(y as int, monitor.y as int, monitor.h as int, h as int)
            }
        }),
{
    let (w, h) = crate::sizing::window_size(
        aspect_w as nat,
        aspect_h as nat,
        monitor.w as nat,
        monitor.h as nat,
    );
    lemma_even_corner(monitor.x, monitor.w, w);
    lemma_even_corner(monitor.y, monitor.h, h);
    if 1 <= monitor.w <= i32::MAX && 1 <= monitor.h <= i32::MAX && monitor.x + monitor.w <= i32::MAX
        && monitor.y + monitor.h <= i32::MAX {
        law_window_stays_on_the_monitor(aspect_w, aspect_h, monitor);
    }
}

} // verus!
