//! Round trips through the weight transform: a reading that was made from
//! a weight comes back as that weight, give or take one, and a scale that
//! was calibrated with a reference reads that reference.

use crate::single::{
    encode,
    exponent_field,
    from_nat,
    is_finite,
    lemma_bit_length_at_most,
    lemma_encode_decodes,
    lemma_from_nat_error,
    lemma_from_nat_is_normal,
    lemma_nearest_integer_error,
    lemma_normalized_of_normal,
    lemma_quotient_error,
    lemma_quotient_is_normal,
    magnitude,
    nearest_integer,
    quotient,
    saturate,
    sign_bit,
    with_sign,
    Binary,
};
use crate::weight::{abs, scale_factor, transform};
use vstd::arithmetic::power2::{
    lemma2_to64,
    lemma_pow2_adds,
    lemma_pow2_pos,
    pow2,
};
use vstd::prelude::*;

verus! {

/// The error bounds of the three roundings imply that the result is within
/// one of the weight.  All quantities are scaled by the common factor `p`:
/// `x` is the reading, `w` the weight, `f / p` the factor, `a / p` the
/// rounded reading, `q / p` the rounded quotient and `r` the result.
proof fn lemma_error_budget(x: int, w: int, f: int, a: int, q: int, r: int, p: int)
    requires
        p > 0,
        f >= p,
        0 <= w <= 0x40_0000,
        r >= 0,
        -p <= 2 * (x * p - w * f) <= p,
        -a <= 0x100_0000 * (a - x * p) <= a,
        -(q * f) <= 0x100_0000 * (q * f - a * p) <= q * f,
        -p <= 2 * (r * p - q) <= p,
    ensures
        w - 1 <= r <= w + 1,
{
    let xp = x * p;
    let t1 = xp * p;
    let t2 = a * p;
    let t3 = q * f;
    let pf = p * f;
    let wpf = w * pf;
    assert(pf > 0) by (nonlinear_arith)
        requires
            p > 0,
            f >= p,
            pf == p * f,
    ;
    assert(0 <= wpf <= 0x40_0000 * pf) by (nonlinear_arith)
        requires
            0 <= w <= 0x40_0000,
            pf > 0,
            wpf == w * pf,
    ;
    // The rounded reading, scaled once more by p.
    assert(0x100_0000 * t1 >= 0xff_ffff * t2 && 0x100_0000 * t1 <= 0x100_0001 * t2)
        by (nonlinear_arith)
        requires
            -a <= 0x100_0000 * (a - xp) <= a,
            p > 0,
            t1 == xp * p,
            t2 == a * p,
    ;
    // The reading against the weight, scaled once more by p.
    assert(2 * t1 <= 2 * wpf + pf && 2 * t1 >= 2 * wpf - pf) by (nonlinear_arith)
        requires
            -p <= 2 * (xp - w * f) <= p,
            p > 0,
            f >= p,
            t1 == xp * p,
            pf == p * f,
            wpf == w * pf,
    ;
    if r >= w + 2 {
        assert(2 * t3 >= 2 * wpf + 3 * pf) by (nonlinear_arith)
            requires
                2 * (r * p - q) <= p,
                r >= w + 2,
                p > 0,
                f > 0,
                t3 == q * f,
                pf == p * f,
                wpf == w * pf,
        ;
    }
    if r <= w - 2 {
        assert(2 * t3 <= 2 * wpf - 3 * pf) by (nonlinear_arith)
            requires
                -p <= 2 * (r * p - q),
                r <= w - 2,
                p > 0,
                f > 0,
                t3 == q * f,
                pf == p * f,
                wpf == w * pf,
        ;
    }
}

/// The number `b` scaled by `2^k`, for a `k` that leaves no fraction.
spec fn scaled(b: Binary, k: int) -> int {
    (b.mant * pow2((b.exp + k) as nat)) as int
}

/// The error of the rounded reading, scaled by `2^k`.
proof fn lemma_scaled_reading(x: nat, k: int)
    requires
        x > 0,
        k >= 23,
    ensures
        from_nat(x).exp + k >= 0,
        -scaled(from_nat(x), k) <= 0x100_0000 * (scaled(from_nat(x), k) - x * pow2(k as nat))
            <= scaled(from_nat(x), k),
{
    let a = from_nat(x);
    lemma_from_nat_is_normal(x);
    lemma_from_nat_error(x);
    let p = pow2(k as nat);
    lemma_pow2_pos(k as nat);
    let ak = scaled(a, k);
    if a.exp >= 0 {
        let e = pow2(a.exp as nat);
        lemma_pow2_pos(a.exp as nat);
        lemma_pow2_adds(a.exp as nat, k as nat);
        let whole = a.mant * e;
        assert(ak == whole * p) by (nonlinear_arith)
            requires
                ak == a.mant * (e * p),
                whole == a.mant * e,
        ;
        assert(-ak <= 0x100_0000 * (ak - x * p) <= ak) by (nonlinear_arith)
            requires
                -e <= 2 * (whole - x) <= e,
                whole == a.mant * e,
                a.mant >= 0x80_0000,
                e > 0,
                p > 0,
                ak == whole * p,
        ;
    } else {
        let c = pow2((-a.exp) as nat);
        let d = pow2((a.exp + k) as nat);
        lemma_pow2_adds((-a.exp) as nat, (a.exp + k) as nat);
        assert(ak == x * p) by (nonlinear_arith)
            requires
                ak == a.mant * d,
                a.mant == x * c,
                c * d == p,
        ;
    }
}

/// The error of the rounded quotient, scaled by `2^k` twice.
proof fn lemma_scaled_quotient(a: Binary, b: Binary, k: int)
    requires
        a.is_normal(),
        b.is_normal(),
        a.exp + k >= 0,
        b.exp + k >= 0,
        quotient(a, b).exp + k >= 0,
        k >= 24,
    ensures
        -(scaled(quotient(a, b), k) * scaled(b, k)) <= 0x100_0000 * (scaled(quotient(a, b), k)
            * scaled(b, k) - scaled(a, k) * pow2(k as nat)) <= scaled(quotient(a, b), k) * scaled(
            b,
            k,
        ),
{
    let q = quotient(a, b);
    lemma_quotient_is_normal(a, b);
    lemma_quotient_error(a, b);
    let bits = a.exp - b.exp - q.exp;
    let t = (q.exp + b.exp + 2 * k) as nat;
    let c1 = pow2((q.exp + k) as nat);
    let c2 = pow2((b.exp + k) as nat);
    let c3 = pow2((a.exp + k) as nat);
    let p = pow2(k as nat);
    let front = pow2(bits as nat);
    let tail = pow2(t);
    lemma_pow2_adds((q.exp + k) as nat, (b.exp + k) as nat);
    lemma_pow2_adds((a.exp + k) as nat, k as nat);
    lemma_pow2_adds(bits as nat, t);
    lemma_pow2_pos(t);
    assert(c1 * c2 == tail);
    assert(c3 * p == front * tail);
    let qk = scaled(q, k);
    let bk = scaled(b, k);
    let ak = scaled(a, k);
    let diff = q.mant * b.mant - a.mant * front;
    assert(qk * bk == (q.mant * b.mant) * tail) by (nonlinear_arith)
        requires
            qk == q.mant * c1,
            bk == b.mant * c2,
            c1 * c2 == tail,
    ;
    assert(ak * p == (a.mant * front) * tail) by (nonlinear_arith)
        requires
            ak == a.mant * c3,
            c3 * p == front * tail,
    ;
    assert(-(qk * bk) <= 0x100_0000 * (qk * bk - ak * p) <= qk * bk) by (nonlinear_arith)
        requires
            qk * bk == (q.mant * b.mant) * tail,
            ak * p == (a.mant * front) * tail,
            -(b.mant as int) <= 2 * (q.mant * b.mant - a.mant * front) <= b.mant,
            q.mant >= 0x80_0000,
            b.mant > 0,
            tail > 0,
    ;
}

/// The error of the final rounding to an integer, scaled by `2^k`.
proof fn lemma_scaled_integer(q: Binary, k: int)
    requires
        q.exp + k >= 0,
        k >= 0,
    ensures
        -(pow2(k as nat) as int) <= 2 * (nearest_integer(q) * pow2(k as nat) - scaled(q, k))
            <= pow2(k as nat),
{
    lemma_nearest_integer_error(q);
    let r = nearest_integer(q);
    let p = pow2(k as nat);
    let qk = scaled(q, k);
    lemma_pow2_pos(k as nat);
    if q.exp >= 0 {
        let e = pow2(q.exp as nat);
        lemma_pow2_adds(q.exp as nat, k as nat);
        assert(r * p == qk) by (nonlinear_arith)
            requires
                r == q.mant * e,
                qk == q.mant * (e * p),
        ;
    } else {
        let c = pow2((-q.exp) as nat);
        let d = pow2((q.exp + k) as nat);
        lemma_pow2_adds((-q.exp) as nat, (q.exp + k) as nat);
        lemma_pow2_pos((q.exp + k) as nat);
        assert(-p <= 2 * (r * p - qk) <= p) by (nonlinear_arith)
            requires
                -c <= 2 * (r * c - q.mant) <= c,
                c * d == p,
                d > 0,
                qk == q.mant * d,
        ;
    }
}

/// `valid` is the product of the weight `w` and the number that `factor`
/// encodes, rounded to an integer; where the product lies halfway between
/// two integers, either will do.  Meant for a finite factor of magnitude 1
/// or more.
pub open spec fn rounds_product(valid: int, w: int, factor: u32) -> bool {
    let f = magnitude(factor);
    let signed = if sign_bit(factor) {
        -w
    } else {
        w
    };
    let product = signed * f.mant * pow2((f.exp + 23) as nat);
    -0x80_0000 <= 2 * (valid * 0x80_0000 - product) <= 0x80_0000
}

/// The magnitudes of a reading and a weight that stand in the relation
/// `rounds_product`, for a reading that is not zero.
proof fn lemma_round_trip_magnitudes(x: nat, w: nat, f: Binary) -> (r: nat)
    requires
        x > 0,
        x < 0x1_0000_0000,
        w <= 0x40_0000,
        f.is_normal(),
        -23 <= f.exp <= 104,
        -0x80_0000 <= 2 * (x * 0x80_0000 - w * f.mant * pow2((f.exp + 23) as nat)) <= 0x80_0000,
    ensures
        r == nearest_integer(quotient(from_nat(x), f)),
        w - 1 <= r <= w + 1,
{
    let k: int = 200;
    let a = from_nat(x);
    let q = quotient(a, f);
    let r = nearest_integer(q);
    let p = pow2(k as nat);
    lemma2_to64();
    lemma_pow2_pos(k as nat);
    lemma_from_nat_is_normal(x);
    lemma_bit_length_at_most(x, 32);
    lemma_quotient_is_normal(a, f);
    lemma_quotient_error(a, f);
    lemma_scaled_reading(x, k);
    lemma_scaled_quotient(a, f, k);
    lemma_scaled_integer(q, k);
    let fk = scaled(f, k);
    // The factor is at least 1.
    let low = pow2((k - 23) as nat);
    let up = pow2((f.exp + 23) as nat);
    lemma_pow2_adds(23, (k - 23) as nat);
    lemma_pow2_adds((f.exp + 23) as nat, (k - 23) as nat);
    lemma_pow2_pos((k - 23) as nat);
    lemma_pow2_pos((f.exp + 23) as nat);
    assert(0x80_0000 * low == p);
    assert(up * low == pow2((f.exp + k) as nat));
    assert(fk >= p) by (nonlinear_arith)
        requires
            fk == f.mant * (up * low),
            f.mant >= 0x80_0000,
            up >= 1,
            low > 0,
            0x80_0000 * low == p,
    ;
    assert(-p <= 2 * (x * p - w * fk) <= p) by (nonlinear_arith)
        requires
            -0x80_0000 <= 2 * (x * 0x80_0000 - w * f.mant * up) <= 0x80_0000,
            fk == f.mant * (up * low),
            0x80_0000 * low == p,
            low > 0,
    ;
    lemma_error_budget(x as int, w as int, fk, scaled(a, k), scaled(q, k), r as int, p as int);
    r
}

/// A reading that was made from a weight `w` by multiplying with the factor
/// and rounding comes back as `w`, give or take one.  This holds for a
/// factor of magnitude 1 or more and a weight of at most 2^22 in magnitude:
/// the two roundings of the division to 24 bits then cost less than half a
/// unit together, and the rounding when the reading was made as much
/// again.
pub proof fn lemma_transform_round_trip(adc_data: i32, zero_offset: i32, w: int, factor: u32)
    requires
        is_finite(factor),
        exponent_field(factor) >= 127,
        -0x40_0000 <= w <= 0x40_0000,
        rounds_product(adc_data - zero_offset, w, factor),
    ensures
        transform(adc_data, zero_offset, factor) matches Ok(weight) && w - 1 <= weight <= w + 1,
{
    let valid = adc_data - zero_offset;
    let f = magnitude(factor);
    lemma2_to64();
    lemma_normalized_of_normal(f);
    let up = pow2((f.exp + 23) as nat);
    lemma_pow2_pos((f.exp + 23) as nat);
    let signed = if sign_bit(factor) {
        -w
    } else {
        w
    };
    let gain = f.mant * up;
    assert(gain >= 0x80_0000) by (nonlinear_arith)
        requires
            gain == f.mant * up,
            f.mant >= 0x80_0000,
            up >= 1,
    ;
    let product = signed * f.mant * up;
    assert(product == signed * gain) by (nonlinear_arith)
        requires
            product == signed * f.mant * up,
            gain == f.mant * up,
    ;
    assert(signed > 0 ==> product >= gain) by (nonlinear_arith)
        requires
            product == signed * gain,
            gain > 0,
    ;
    assert(signed < 0 ==> product <= -gain) by (nonlinear_arith)
        requires
            product == signed * gain,
            gain > 0,
    ;
    assert(signed == 0 ==> product == 0) by (nonlinear_arith)
        requires
            product == signed * gain,
    ;
    if valid == 0 {
        assert(w == 0);
    } else {
        let x = abs(valid);
        let m = abs(w);
        assert((-signed) * f.mant * up == -product) by (nonlinear_arith)
            requires
                product == signed * f.mant * up,
        ;
        if valid > 0 {
            assert(signed > 0);
            assert(m == signed);
        } else {
            assert(signed < 0);
            assert(m == -signed);
        }
        let r = lemma_round_trip_magnitudes(x, m, f);
        assert(saturate(with_sign((valid < 0) != sign_bit(factor), r)) == with_sign(
            (valid < 0) != sign_bit(factor),
            r,
        ));
    }
}

/// Dividing by a rounded quotient gives the divisor back, up to the two
/// rounding errors.  All quantities are scaled by the common factor `p`:
/// `a / p` is the dividend, `w` the divisor, `g / p` the rounded quotient
/// of the two, `q / p` the rounded quotient of the dividend and `g / p`, and
/// `r` the integer nearest to that.
proof fn lemma_error_budget_of_calibration(a: int, w: int, g: int, q: int, r: int, p: int)
    requires
        p > 0,
        g > 0,
        0 < w < 0x40_0000,
        r >= 0,
        -(g * (w * p)) <= 0x100_0000 * (g * (w * p) - a * p) <= g * (w * p),
        -(q * g) <= 0x100_0000 * (q * g - a * p) <= q * g,
        -p <= 2 * (r * p - q) <= p,
    ensures
        r == w,
{
    let gwp = g * (w * p);
    let qg = q * g;
    let gp = g * p;
    assert(gwp == w * gp) by (nonlinear_arith)
        requires
            gwp == g * (w * p),
            gp == g * p,
    ;
    assert(gp > 0) by (nonlinear_arith)
        requires
            g > 0,
            p > 0,
            gp == g * p,
    ;
    if r >= w + 1 {
        assert(2 * qg >= 2 * (w * gp) + gp) by (nonlinear_arith)
            requires
                2 * (r * p - q) <= p,
                r >= w + 1,
                g > 0,
                p > 0,
                qg == q * g,
                gp == g * p,
        ;
    }
    if r <= w - 1 {
        assert(2 * qg <= 2 * (w * gp) - gp) by (nonlinear_arith)
            requires
                -p <= 2 * (r * p - q),
                r <= w - 1,
                g > 0,
                p > 0,
                qg == q * g,
                gp == g * p,
        ;
    }
    assert(w * gp <= 0x3f_ffff * gp) by (nonlinear_arith)
        requires
            w <= 0x3f_ffff,
            gp > 0,
    ;
    assert(w * gp > 0) by (nonlinear_arith)
        requires
            w > 0,
            gp > 0,
    ;
}

/// The magnitudes of a reading and a reference: the reading divided by the
/// factor that the two give is the reference.
proof fn lemma_calibration_magnitudes(x: nat, w: nat)
    requires
        0 < x < 0x1_0000_0000,
        0 < w < 0x40_0000,
    ensures
        quotient(from_nat(x), from_nat(w)).is_normal(),
        -149 <= quotient(from_nat(x), from_nat(w)).exp <= 104,
        nearest_integer(quotient(from_nat(x), quotient(from_nat(x), from_nat(w)))) == w,
{
    let k: int = 200;
    let a = from_nat(x);
    let b = from_nat(w);
    let g = quotient(a, b);
    let q = quotient(a, g);
    let r = nearest_integer(q);
    let p = pow2(k as nat);
    lemma2_to64();
    lemma_pow2_pos(k as nat);
    lemma_from_nat_is_normal(x);
    lemma_from_nat_is_normal(w);
    lemma_bit_length_at_most(x, 32);
    lemma_bit_length_at_most(w, 22);
    lemma_from_nat_error(w);
    lemma_quotient_is_normal(a, b);
    lemma_quotient_error(a, b);
    lemma_quotient_is_normal(a, g);
    lemma_quotient_error(a, g);
    lemma_scaled_quotient(a, b, k);
    lemma_scaled_quotient(a, g, k);
    lemma_scaled_integer(q, k);
    // The reference has at most 22 bits and is not changed by the rounding.
    let c = pow2((-b.exp) as nat);
    let d = pow2((b.exp + k) as nat);
    lemma_pow2_adds((-b.exp) as nat, (b.exp + k) as nat);
    let bk = scaled(b, k);
    assert(bk == w * p) by (nonlinear_arith)
        requires
            bk == b.mant * d,
            b.mant == w * c,
            c * d == p,
    ;
    let gk = scaled(g, k);
    lemma_pow2_pos((g.exp + k) as nat);
    assert(gk > 0) by (nonlinear_arith)
        requires
            gk == g.mant * pow2((g.exp + k) as nat),
            g.mant > 0,
            pow2((g.exp + k) as nat) > 0,
    ;
    assert(scaled(q, k) * gk == scaled(q, k) * scaled(g, k));
    lemma_error_budget_of_calibration(scaled(a, k), w as int, gk, scaled(q, k), r as int, p as int);
}

/// A scale that was calibrated with a reference on it reads the weight of
/// that reference as long as the load does not change: the reading that
/// gave the factor, converted with that factor, is the reference weight.
/// This holds for a load that differs from the tare offset and a reference
/// below 2^22 in magnitude.
pub proof fn lemma_calibrated_scale_reads_reference(latest: i32, zero_offset: i32, reference: i32)
    requires
        latest != zero_offset,
        reference != 0,
        -0x40_0000 < reference < 0x40_0000,
    ensures
        transform(latest, zero_offset, scale_factor(latest - zero_offset, reference as int)) == Ok::<
            i32,
            crate::weight::WeightError,
        >(reference),
{
    let valid = latest - zero_offset;
    let x = abs(valid);
    let w = abs(reference as int);
    let negative = (valid < 0) != (reference < 0);
    let g = quotient(from_nat(x), from_nat(w));
    lemma_calibration_magnitudes(x, w);
    lemma_encode_decodes(negative, g);
    let factor = encode(negative, g);
    assert(factor == scale_factor(valid, reference as int));
    assert(saturate(with_sign((valid < 0) != sign_bit(factor), w)) == reference);
}

} // verus!
