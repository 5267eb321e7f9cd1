//! Arithmetic on the IEEE 754 binary32 encoding, carried out on integers.
//!
//! A calibration factor travels as the 32 bits of a single-precision number.
//! The functions here take such bits apart, divide with the rounding that
//! the format prescribes (to nearest, ties to even, 24 significant bits) and
//! round a quotient to an integer.

use vstd::arithmetic::power2::{
    lemma2_to64,
    lemma2_to64_rest,
    lemma_pow2_adds,
    lemma_pow2_pos,
    lemma_pow2_strictly_increases,
    lemma_pow2_unfold,
    pow2,
};
use vstd::prelude::*;

verus! {

/// The positive number `mant * 2^exp`.
pub struct Binary {
    pub mant: nat,
    pub exp: int,
}

impl Binary {
    /// The significand occupies exactly 24 bits.
    pub open spec fn is_normal(self) -> bool {
        0x80_0000 <= self.mant < 0x100_0000
    }
}

/// A positive number `mant * 2^exp` in machine integers.
#[derive(Clone, Copy, Debug)]
pub struct Scaled {
    pub mant: u32,
    pub exp: i32,
}

impl View for Scaled {
    type V = Binary;

    open spec fn view(&self) -> Binary {
        Binary { mant: self.mant as nat, exp: self.exp as int }
    }
}

/// The number of binary digits of `n`; 0 for 0.
pub open spec fn bit_length(n: nat) -> nat
    decreases n,
{
    if n == 0 {
        0
    } else {
        1 + bit_length(n / 2)
    }
}

/// The nearest integer to `n / d`; a tie goes to the even neighbour.
pub open spec fn round_half_even(n: nat, d: nat) -> nat {
    let q = n / d;
    let r = n % d;
    if 2 * r < d {
        q
    } else if 2 * r > d {
        q + 1
    } else if q % 2 == 0 {
        q
    } else {
        q + 1
    }
}

/// The nearest integer to `n / d`; a tie goes away from zero.
pub open spec fn round_half_away(n: nat, d: nat) -> nat {
    (2 * n + d) / (2 * d)
}

/// Whether the sign bit of `bits` is set.
pub open spec fn sign_bit(bits: u32) -> bool {
    bits >= 0x8000_0000
}

/// The eight exponent bits of `bits`.
pub open spec fn exponent_field(bits: u32) -> nat {
    (bits as nat / 0x80_0000) % 0x100
}

/// The 23 fraction bits of `bits`.
pub open spec fn fraction_field(bits: u32) -> nat {
    bits as nat % 0x80_0000
}

/// `bits` encodes positive or negative zero.
pub open spec fn is_zero(bits: u32) -> bool {
    bits == 0 || bits == 0x8000_0000
}

/// `bits` encodes a number, that is neither an infinity nor a NaN.
pub open spec fn is_finite(bits: u32) -> bool {
    exponent_field(bits) != 0xff
}

/// The absolute value that finite `bits` encode.  With a zero exponent
/// field the number is subnormal and has no implicit leading one.
pub open spec fn magnitude(bits: u32) -> Binary {
    if exponent_field(bits) == 0 {
        Binary { mant: fraction_field(bits), exp: -149 }
    } else {
        Binary { mant: 0x80_0000 + fraction_field(bits), exp: exponent_field(bits) - 150 }
    }
}

/// The same number as `b`, with its significand scaled up to 24 bits.
/// Meant for a significand of at most 24 bits that is not zero.
pub open spec fn normalized(b: Binary) -> Binary {
    let shift = 24 - bit_length(b.mant);
    Binary { mant: b.mant * pow2(shift as nat), exp: b.exp - shift }
}

/// The positive integer `n` rounded to 24 significant bits, ties to even.
pub open spec fn from_nat(n: nat) -> Binary {
    let len = bit_length(n);
    if len <= 24 {
        normalized(Binary { mant: n, exp: 0 })
    } else {
        let m = round_half_even(n, pow2((len - 24) as nat));
        if m == 0x100_0000 {
            Binary { mant: 0x80_0000, exp: len - 23 }
        } else {
            Binary { mant: m, exp: len - 24 }
        }
    }
}

/// The quotient `a / b` of two normal numbers rounded to 24 significant
/// bits, ties to even.  The ratio of the significands lies between one half
/// and two, so 23 or 24 further bits bring the quotient to full width.  The
/// exponent is not limited to what 32 bits can encode.
pub open spec fn quotient(a: Binary, b: Binary) -> Binary {
    if a.mant >= b.mant {
        Binary { mant: round_half_even(a.mant * 0x80_0000, b.mant), exp: a.exp - b.exp - 23 }
    } else {
        Binary { mant: round_half_even(a.mant * 0x100_0000, b.mant), exp: a.exp - b.exp - 24 }
    }
}

/// The integer nearest to `b`, ties away from zero.
pub open spec fn nearest_integer(b: Binary) -> nat {
    if b.exp >= 0 {
        b.mant * pow2(b.exp as nat)
    } else {
        round_half_away(b.mant, pow2((-b.exp) as nat))
    }
}

/// `x` limited to the range of `i32`.
pub open spec fn saturate(x: int) -> int {
    if x < -0x8000_0000 {
        -0x8000_0000
    } else if x > 0x7fff_ffff {
        0x7fff_ffff
    } else {
        x
    }
}

/// `w` with the given sign.
pub open spec fn with_sign(negative: bool, w: nat) -> int {
    if negative {
        -(w as int)
    } else {
        w as int
    }
}

/// The bits of the normal number `b` with the given sign, for an exponent
/// from -149 to 104.
pub open spec fn encode(negative: bool, b: Binary) -> u32 {
    ((if negative {
        0x8000_0000int
    } else {
        0int
    }) + (b.exp + 150) * 0x80_0000 + (b.mant - 0x80_0000)) as u32
}

/// A positive `n` lies between the two powers of two that its bit length names.
pub proof fn lemma_bit_length_bounds(n: nat)
    requires
        n > 0,
    ensures
        bit_length(n) >= 1,
        pow2((bit_length(n) - 1) as nat) <= n < pow2(bit_length(n)),
    decreases n,
{
    lemma2_to64();
    if n == 1 {
        assert(bit_length(0) == 0);
        assert(bit_length(1) == 1 + bit_length(0));
    } else {
        let h = n / 2;
        lemma_bit_length_bounds(h);
        assert(bit_length(n) == 1 + bit_length(h));
        lemma_pow2_unfold(bit_length(n));
        lemma_pow2_unfold(bit_length(h));
    }
}

/// The bit length is the only `k` with `2^(k-1) <= n < 2^k`.
pub proof fn lemma_bit_length_unique(n: nat, k: nat)
    requires
        k >= 1,
        pow2((k - 1) as nat) <= n < pow2(k),
    ensures
        bit_length(n) == k,
    decreases k,
{
    lemma2_to64();
    if k == 1 {
        assert(n == 1);
        assert(bit_length(0) == 0);
        assert(bit_length(1) == 1 + bit_length(0));
    } else {
        lemma_pow2_unfold(k);
        lemma_pow2_unfold((k - 1) as nat);
        lemma_pow2_pos((k - 2) as nat);
        lemma_bit_length_unique(n / 2, (k - 1) as nat);
    }
}

/// A quotient by a positive divisor lies where the bounds on the dividend put it.
proof fn lemma_div_between(n: int, d: int, lo: int, hi: int)
    by (nonlinear_arith)
    requires
        d > 0,
        lo * d <= n < hi * d,
    ensures
        lo <= n / d < hi,
        0 <= n % d < d,
        n == (n / d) * d + n % d,
{
}

/// A significand of at most 24 bits scales up to exactly 24 bits.
pub proof fn lemma_normalized_is_normal(b: Binary)
    requires
        0 < b.mant < 0x100_0000,
    ensures
        1 <= bit_length(b.mant) <= 24,
        normalized(b).is_normal(),
{
    let len = bit_length(b.mant);
    lemma_bit_length_bounds(b.mant);
    lemma2_to64();
    if len > 25 {
        lemma_pow2_strictly_increases(24, (len - 1) as nat);
    }
    assert(len <= 24);
    let shift = (24 - len) as nat;
    lemma_pow2_adds((len - 1) as nat, shift);
    lemma_pow2_adds(len, shift);
    lemma_pow2_pos(shift);
    assert(0x80_0000 <= b.mant * pow2(shift) < 0x100_0000) by (nonlinear_arith)
        requires
            pow2((len - 1) as nat) <= b.mant < pow2(len),
            pow2((len - 1) as nat) * pow2(shift) == 0x80_0000,
            pow2(len) * pow2(shift) == 0x100_0000,
            pow2(shift) > 0,
    ;
}

/// A positive integer rounds to a normal number whose exponent is its bit
/// length less 24, or one more where the rounding carries.
pub proof fn lemma_from_nat_is_normal(n: nat)
    requires
        n > 0,
    ensures
        from_nat(n).is_normal(),
        from_nat(n).exp == bit_length(n) - 24 || (bit_length(n) > 24 && from_nat(n).exp
            == bit_length(n) - 23),
{
    let len = bit_length(n);
    lemma_bit_length_bounds(n);
    lemma2_to64();
    if len <= 24 {
        if len < 24 {
            lemma_pow2_strictly_increases(len, 24);
        }
        lemma_normalized_is_normal(Binary { mant: n, exp: 0 });
    } else {
        let shift = (len - 24) as nat;
        let d = pow2(shift);
        lemma_pow2_pos(shift);
        lemma_pow2_adds(23, shift);
        lemma_pow2_adds(24, shift);
        lemma_div_between(n as int, d as int, 0x80_0000, 0x100_0000);
    }
}

/// The rounded quotient of two normal numbers is normal.
pub proof fn lemma_quotient_is_normal(a: Binary, b: Binary)
    requires
        a.is_normal(),
        b.is_normal(),
    ensures
        quotient(a, b).is_normal(),
{
    let ma = a.mant as int;
    let mb = b.mant as int;
    if ma >= mb {
        let n = ma * 0x80_0000;
        assert(0x80_0000 * mb <= n < 0x100_0000 * mb) by (nonlinear_arith)
            requires
                n == ma * 0x80_0000,
                0x80_0000 <= mb <= ma < 0x100_0000,
        ;
        lemma_div_between(n, mb, 0x80_0000, 0x100_0000);
        let q = n / mb;
        let r = n % mb;
        if q == 0xff_ffff {
            assert(r <= 0) by (nonlinear_arith)
                requires
                    n == q * mb + r,
                    q == 0xff_ffff,
                    n == ma * 0x80_0000,
                    0x80_0000 <= mb,
                    ma < 0x100_0000,
            ;
        }
    } else {
        let n = ma * 0x100_0000;
        assert(0x80_0000 * mb <= n < 0x100_0000 * mb) by (nonlinear_arith)
            requires
                n == ma * 0x100_0000,
                0x80_0000 <= ma < mb < 0x100_0000,
        ;
        lemma_div_between(n, mb, 0x80_0000, 0x100_0000);
        let q = n / mb;
        let r = n % mb;
        if q == 0xff_ffff {
            assert(r < 0) by (nonlinear_arith)
                requires
                    n == q * mb + r,
                    q == 0xff_ffff,
                    n == ma * 0x100_0000,
                    ma < mb < 0x100_0000,
            ;
        }
    }
}

/// A number below `2^k` has at most `k` binary digits.
pub proof fn lemma_bit_length_at_most(n: nat, k: nat)
    requires
        n < pow2(k),
    ensures
        bit_length(n) <= k,
{
    if n > 0 {
        lemma_bit_length_bounds(n);
        if bit_length(n) > k + 1 {
            lemma_pow2_strictly_increases(k, (bit_length(n) - 1) as nat);
        }
    }
}

/// Rounding to the nearest integer, ties to even, is off by at most one
/// half: `m = round_half_even(n, d)` satisfies `|m - n / d| <= 1 / 2`.
pub proof fn lemma_round_half_even_error(n: nat, d: nat)
    requires
        d > 0,
    ensures
        -(d as int) <= 2 * (round_half_even(n, d) * d - n) <= d,
{
    let q = n / d;
    let r = n % d;
    assert(0 * d <= n < (n + 1) * d) by (nonlinear_arith)
        requires
            d > 0,
    ;
    lemma_div_between(n as int, d as int, 0, (n + 1) as int);
    assert((q + 1) * d == q * d + d) by (nonlinear_arith);
}

/// Rounding to the nearest integer, ties away from zero, is off by at most
/// one half.
pub proof fn lemma_round_half_away_error(n: nat, d: nat)
    requires
        d > 0,
    ensures
        -(d as int) <= 2 * (round_half_away(n, d) * d - n) <= d,
{
    let m = round_half_away(n, d);
    let x = (2 * n + d) as int;
    let dd = (2 * d) as int;
    assert(0 * dd <= x < (x + 1) * dd) by (nonlinear_arith)
        requires
            dd > 0,
            x >= 0,
    ;
    lemma_div_between(x, dd, 0, x + 1);
    assert(m * dd == 2 * (m * d)) by (nonlinear_arith)
        requires
            dd == 2 * d,
    ;
}

/// A positive integer and its rounding to 24 significant bits differ by at
/// most half a unit in the last place; an integer of at most 24 bits is not
/// changed at all.
pub proof fn lemma_from_nat_error(n: nat)
    requires
        n > 0,
    ensures
        from_nat(n).exp >= 0 ==> -(pow2(from_nat(n).exp as nat) as int) <= 2 * (from_nat(n).mant
            * pow2(from_nat(n).exp as nat) - n) <= pow2(from_nat(n).exp as nat),
        from_nat(n).exp <= 0 ==> from_nat(n).mant == n * pow2((-from_nat(n).exp) as nat),
{
    let len = bit_length(n);
    lemma_bit_length_bounds(n);
    lemma2_to64();
    if len <= 24 {
        if len < 24 {
            lemma_pow2_strictly_increases(len, 24);
        }
        lemma_normalized_is_normal(Binary { mant: n, exp: 0 });
        if len == 24 {
            assert(n * pow2(0) == n) by (nonlinear_arith)
                requires
                    pow2(0) == 1,
            ;
        }
    } else {
        let shift = (len - 24) as nat;
        let d = pow2(shift);
        lemma_pow2_pos(shift);
        lemma_round_half_even_error(n, d);
        let m = round_half_even(n, d);
        if m == 0x100_0000 {
            lemma_pow2_unfold(shift + 1);
            assert(0x80_0000 * (2 * d) == m * d) by (nonlinear_arith)
                requires
                    m == 0x100_0000,
            ;
        }
    }
}

/// The rounded quotient of two normal numbers and the exact quotient
/// differ by at most half a unit in the last place: with `k` the number of
/// bits, 23 or 24, by which the dividend was scaled,
/// `|q.mant - a.mant * 2^k / b.mant| <= 1 / 2`.
pub proof fn lemma_quotient_error(a: Binary, b: Binary)
    requires
        a.is_normal(),
        b.is_normal(),
    ensures
        ({
            let q = quotient(a, b);
            let k = a.exp - b.exp - q.exp;
            &&& k == 23 || k == 24
            &&& -(b.mant as int) <= 2 * (q.mant * b.mant - a.mant * pow2(k as nat)) <= b.mant
        }),
{
    lemma2_to64();
    if a.mant >= b.mant {
        lemma_round_half_even_error(a.mant * 0x80_0000, b.mant);
    } else {
        lemma_round_half_even_error(a.mant * 0x100_0000, b.mant);
    }
}

/// A number and the integer nearest to it differ by at most one half; a
/// number without fractional bits is that integer.
pub proof fn lemma_nearest_integer_error(b: Binary)
    ensures
        b.exp >= 0 ==> nearest_integer(b) == b.mant * pow2(b.exp as nat),
        b.exp < 0 ==> -(pow2((-b.exp) as nat) as int) <= 2 * (nearest_integer(b) * pow2(
            (-b.exp) as nat,
        ) - b.mant) <= pow2((-b.exp) as nat),
{
    if b.exp < 0 {
        lemma_pow2_pos((-b.exp) as nat);
        lemma_round_half_away_error(b.mant, pow2((-b.exp) as nat));
    }
}

/// `2^k` as a machine integer.
pub fn power_of_two(k: u32) -> (p: u64)
    requires
        k < 64,
    ensures
        p == pow2(k as nat),
{
    let mut p: u64 = 1;
    let mut i: u32 = 0;
    proof {
        lemma2_to64();
    }
    while i < k
        invariant
            i <= k < 64,
            p == pow2(i as nat),
        decreases k - i,
    {
        proof {
            lemma2_to64_rest();
            if i < 62 {
                lemma_pow2_strictly_increases(i as nat, 62);
            }
            lemma_pow2_unfold((i + 1) as nat);
        }
        p = p * 2;
        i = i + 1;
    }
    p
}

/// The number of binary digits of `n`.
pub fn bit_len(n: u64) -> (k: u32)
    ensures
        k == bit_length(n as nat),
        k <= 64,
{
    if n == 0 {
        return 0;
    }
    let mut k: u32 = 1;
    let mut rest: u64 = n / 2;
    proof {
        lemma2_to64();
    }
    while rest > 0
        invariant
            1 <= k <= 64,
            n > 0,
            bit_length(n as nat) == k + bit_length(rest as nat),
            rest as nat * pow2(k as nat) <= n,
        decreases rest,
    {
        proof {
            lemma_pow2_unfold((k + 1) as nat);
            lemma2_to64_rest();
            if k == 64 {
                assert(false) by (nonlinear_arith)
                    requires
                        rest >= 1,
                        rest as nat * pow2(64) <= n,
                        pow2(64) == 0x1_0000_0000_0000_0000,
                        n < 0x1_0000_0000_0000_0000,
                ;
            }
            assert((rest / 2) as nat * pow2((k + 1) as nat) <= n) by (nonlinear_arith)
                requires
                    rest as nat * pow2(k as nat) <= n,
                    pow2((k + 1) as nat) == 2 * pow2(k as nat),
            ;
        }
        rest = rest / 2;
        k = k + 1;
    }
    k
}

/// `n / d` rounded to the nearest integer, ties to even.
pub fn div_half_even(n: u64, d: u64) -> (m: u64)
    requires
        d > 0,
        n < u64::MAX,
    ensures
        m == round_half_even(n as nat, d as nat),
{
    let q = n / d;
    let r = n % d;
    let rest = d - r;
    if r < rest {
        q
    } else if r > rest {
        q + 1
    } else if q % 2 == 0 {
        q
    } else {
        q + 1
    }
}

/// Scales a significand of at most 24 bits up to exactly 24 bits.
pub fn normalize(mant: u32, exp: i32) -> (r: Scaled)
    requires
        0 < mant < 0x100_0000,
        -0x1000_0000 <= exp <= 0x1000_0000,
    ensures
        r@ == normalized(Binary { mant: mant as nat, exp: exp as int }),
        r@.is_normal(),
        exp - 23 <= r.exp <= exp,
{
    proof {
        lemma_normalized_is_normal(Binary { mant: mant as nat, exp: exp as int });
    }
    let len = bit_len(mant as u64);
    let shift = 24 - len;
    let scale = power_of_two(shift);
    let m = (mant as u64) * scale;
    Scaled { mant: m as u32, exp: exp - (shift as i32) }
}

/// Rounds a positive integer to 24 significant bits, ties to even.
pub fn round_to_single(n: u64) -> (r: Scaled)
    requires
        n > 0,
    ensures
        r@ == from_nat(n as nat),
        r@.is_normal(),
        -23 <= r.exp <= 41,
        r.exp == bit_length(n as nat) - 24 || r.exp == bit_length(n as nat) - 23,
{
    proof {
        lemma_from_nat_is_normal(n as nat);
        lemma_bit_length_bounds(n as nat);
    }
    let len = bit_len(n);
    if len <= 24 {
        proof {
            lemma2_to64();
            if len < 24 {
                lemma_pow2_strictly_increases(len as nat, 24);
            }
        }
        normalize(n as u32, 0)
    } else {
        let shift = len - 24;
        let d = power_of_two(shift);
        proof {
            lemma2_to64();
            lemma_pow2_adds(23, shift as nat);
            lemma_pow2_adds(24, shift as nat);
            lemma_div_between(n as int, d as int, 0x80_0000, 0x100_0000);
        }
        if n == u64::MAX {
            // Every bit is set: the rounding carries into the next power of two.
            proof {
                lemma2_to64_rest();
                lemma_bit_length_unique(n as nat, 64);
                assert(d == 0x100_0000_0000);
                assert(n as nat / 0x100_0000_0000 == 0xff_ffff);
                assert(n as nat % 0x100_0000_0000 == 0xff_ffff_ffff);
            }
            return Scaled { mant: 0x80_0000, exp: 41 };
        }
        let m = div_half_even(n, d);
        if m == 0x100_0000 {
            Scaled { mant: 0x80_0000, exp: (len - 23) as i32 }
        } else {
            Scaled { mant: m as u32, exp: (len - 24) as i32 }
        }
    }
}

/// Divides one normal number by another and rounds the quotient to 24
/// significant bits, ties to even.
pub fn divide(a: Scaled, b: Scaled) -> (r: Scaled)
    requires
        a@.is_normal(),
        b@.is_normal(),
        -0x2000_0000 <= a.exp <= 0x2000_0000,
        -0x2000_0000 <= b.exp <= 0x2000_0000,
    ensures
        r@ == quotient(a@, b@),
        r@.is_normal(),
{
    proof {
        lemma_quotient_is_normal(a@, b@);
    }
    if a.mant >= b.mant {
        let m = div_half_even((a.mant as u64) * 0x80_0000, b.mant as u64);
        Scaled { mant: m as u32, exp: a.exp - b.exp - 23 }
    } else {
        let m = div_half_even((a.mant as u64) * 0x100_0000, b.mant as u64);
        Scaled { mant: m as u32, exp: a.exp - b.exp - 24 }
    }
}

/// Rounds a normal number with the given sign to the nearest integer, ties
/// away from zero, and limits the result to the range of `i32`.
pub fn round_to_i32(negative: bool, v: Scaled) -> (w: i32)
    requires
        v@.is_normal(),
    ensures
        w == saturate(with_sign(negative, nearest_integer(v@))),
{
    proof {
        lemma2_to64();
    }
    if v.exp >= 8 {
        proof {
            if v.exp > 8 {
                lemma_pow2_strictly_increases(8, v.exp as nat);
            }
            assert(v.mant as nat * pow2(v.exp as nat) >= 0x8000_0000) by (nonlinear_arith)
                requires
                    v.mant >= 0x80_0000,
                    pow2(v.exp as nat) >= 0x100,
            ;
        }
        if negative {
            i32::MIN
        } else {
            i32::MAX
        }
    } else if v.exp >= 0 {
        let scale = power_of_two(v.exp as u32);
        proof {
            if v.exp < 7 {
                lemma_pow2_strictly_increases(v.exp as nat, 7);
            }
            assert(v.mant as nat * pow2(v.exp as nat) < 0x8000_0000) by (nonlinear_arith)
                requires
                    v.mant < 0x100_0000,
                    pow2(v.exp as nat) <= 0x80,
            ;
        }
        let w = (v.mant as u64) * scale;
        if negative {
            -(w as i64) as i32
        } else {
            w as i32
        }
    } else if v.exp <= -26 {
        proof {
            let d = pow2((-v.exp) as nat);
            if v.exp < -26 {
                lemma_pow2_strictly_increases(26, (-v.exp) as nat);
            }
            lemma_div_between(2 * v.mant + d, 2 * d as int, 0, 1);
        }
        0
    } else {
        let d = power_of_two((-v.exp) as u32);
        proof {
            if v.exp > -25 {
                lemma_pow2_strictly_increases((-v.exp) as nat, 25);
            }
            lemma_pow2_pos((-v.exp) as nat);
            lemma_div_between(2 * v.mant + d, 2 * d, 0, 0x100_0000);
        }
        let w = (2 * (v.mant as u64) + d) / (2 * d);
        if negative {
            -(w as i64) as i32
        } else {
            w as i32
        }
    }
}

/// Scaling leaves a normal number as it is.
pub proof fn lemma_normalized_of_normal(b: Binary)
    requires
        b.is_normal(),
    ensures
        normalized(b) == b,
{
    lemma2_to64();
    lemma_bit_length_unique(b.mant, 24);
    assert(b.mant * pow2(0) == b.mant) by (nonlinear_arith)
        requires
            pow2(0) == 1,
    ;
}

/// A normal number, encoded and taken apart again, is the number it was.
pub proof fn lemma_encode_decodes(negative: bool, b: Binary)
    requires
        b.is_normal(),
        -149 <= b.exp <= 104,
    ensures
        is_finite(encode(negative, b)),
        !is_zero(encode(negative, b)),
        sign_bit(encode(negative, b)) == negative,
        magnitude(encode(negative, b)) == b,
        normalized(magnitude(encode(negative, b))) == b,
{
    let s: int = if negative {
        0x8000_0000
    } else {
        0
    };
    let e = b.exp + 150;
    let f = b.mant - 0x80_0000;
    let total = s + e * 0x80_0000 + f;
    assert(0 < total < 0x1_0000_0000);
    let bits = encode(negative, b);
    assert(bits == total);
    assert(bits as nat / 0x80_0000 == (if negative {
        256 + e
    } else {
        e
    }));
    lemma_normalized_of_normal(b);
}

/// The sign and the magnitude of finite bits that are not zero, the
/// magnitude scaled to a 24-bit significand.
pub fn decode(bits: u32) -> (r: (bool, Scaled))
    requires
        is_finite(bits),
        !is_zero(bits),
    ensures
        r.0 == sign_bit(bits),
        r.1@ == normalized(magnitude(bits)),
        r.1@.is_normal(),
        -172 <= r.1.exp <= 104,
{
    let negative = bits >= 0x8000_0000;
    let field = (bits / 0x80_0000) % 0x100;
    let fraction = bits % 0x80_0000;
    if field == 0 {
        (negative, normalize(fraction, -149))
    } else {
        let mant = 0x80_0000 + fraction;
        proof {
            lemma_normalized_of_normal(magnitude(bits));
        }
        (negative, Scaled { mant, exp: field as i32 - 150 })
    }
}

/// The bits of a normal number with the given sign.
pub fn encode_bits(negative: bool, v: Scaled) -> (bits: u32)
    requires
        v@.is_normal(),
        -149 <= v.exp <= 104,
    ensures
        bits == encode(negative, v@),
{
    let sign: u32 = if negative {
        0x8000_0000
    } else {
        0
    };
    sign + ((v.exp + 150) as u32) * 0x80_0000 + (v.mant - 0x80_0000)
}

} // verus!
