//! Integer helpers: the shifts and divisions of fixed-point formulas, on
//! values wide enough that nothing is lost before the range is checked.

use vstd::arithmetic::div_mod::{lemma_fundamental_div_mod, lemma_fundamental_div_mod_converse};
use vstd::prelude::*;

verus! {

/// `x` lies in the range of `i32`.
pub open spec fn fits_i32(x: int) -> bool {
    -0x8000_0000 <= x <= 0x7fff_ffff
}

/// `x` lies in the range of `i64`.
pub open spec fn fits_i64(x: int) -> bool {
    -0x8000_0000_0000_0000 <= x <= 0x7fff_ffff_ffff_ffff
}

/// `x` reduced to 32 bits in two's complement.
pub open spec fn wrap_i32(x: int) -> int {
    (x + 0x8000_0000) % 0x1_0000_0000 - 0x8000_0000
}

/// `x` reduced to 64 bits in two's complement.
pub open spec fn wrap_i64(x: int) -> int {
    (x + 0x8000_0000_0000_0000) % 0x1_0000_0000_0000_0000 - 0x8000_0000_0000_0000
}

/// The quotient `x / d` rounded toward zero, for a divisor that is not zero.
pub open spec fn div_toward_zero(x: int, d: int) -> int {
    if x >= 0 {
        if d > 0 {
            x / d
        } else {
            -(x / (-d))
        }
    } else {
        if d > 0 {
            -((-x) / d)
        } else {
            (-x) / (-d)
        }
    }
}

/// Whether `x` lies in the range of `i32`.
pub fn in_i32(x: i128) -> (b: bool)
    ensures
        b == fits_i32(x as int),
{
    -0x8000_0000 <= x && x <= 0x7fff_ffff
}

/// Whether `x` lies in the range of `i64`.
pub fn in_i64(x: i128) -> (b: bool)
    ensures
        b == fits_i64(x as int),
{
    -0x8000_0000_0000_0000 <= x && x <= 0x7fff_ffff_ffff_ffff
}

/// The product of two numbers of at most 64 bits.
pub fn product(x: i128, y: i128) -> (r: i128)
    requires
        -0x8000_0000_0000_0000 <= x <= 0x8000_0000_0000_0000,
        -0x8000_0000_0000_0000 <= y <= 0x8000_0000_0000_0000,
    ensures
        r == x * y,
{
    proof {
        assert(-0x4000_0000_0000_0000_0000_0000_0000_0000 <= x * y
            <= 0x4000_0000_0000_0000_0000_0000_0000_0000) by (nonlinear_arith)
            requires
                -0x8000_0000_0000_0000 <= x <= 0x8000_0000_0000_0000,
                -0x8000_0000_0000_0000 <= y <= 0x8000_0000_0000_0000,
        ;
    }
    x * y
}

/// The quotient `x / d` rounded down, as an arithmetic shift to the right
/// gives it for a power of two.
pub fn floor_div(x: i128, d: i128) -> (q: i128)
    requires
        d > 0,
        x > i128::MIN,
    ensures
        q == x as int / d as int,
{
    if x >= 0 {
        x / d
    } else {
        let y = -x;
        let q0 = y / d;
        let r0 = y % d;
        proof {
            lemma_fundamental_div_mod(y as int, d as int);
            assert(d * q0 >= 0) by (nonlinear_arith)
                requires
                    d > 0,
                    q0 >= 0,
            ;
        }
        if r0 == 0 {
            proof {
                assert(x == (-q0) * d + 0) by (nonlinear_arith)
                    requires
                        -x == d * q0,
                ;
                lemma_fundamental_div_mod_converse(x as int, d as int, -q0, 0);
            }
            -q0
        } else {
            proof {
                assert(x == (-q0 - 1) * d + (d - r0)) by (nonlinear_arith)
                    requires
                        -x == d * q0 + r0,
                ;
                lemma_fundamental_div_mod_converse(x as int, d as int, -q0 - 1, d - r0);
            }
            -q0 - 1
        }
    }
}

/// The quotient `x / d` rounded toward zero.
pub fn trunc_div(x: i128, d: i128) -> (q: i128)
    requires
        d != 0,
        x > i128::MIN,
        d > i128::MIN,
    ensures
        q == div_toward_zero(x as int, d as int),
{
    let ax = if x >= 0 {
        x
    } else {
        -x
    };
    let ad = if d > 0 {
        d
    } else {
        -d
    };
    let q0 = ax / ad;
    if (x >= 0) == (d > 0) {
        q0
    } else {
        -q0
    }
}

/// `x` reduced to 32 bits in two's complement.
pub fn wrap32(x: i128) -> (w: i128)
    requires
        -0x4000_0000_0000_0000_0000 <= x <= 0x4000_0000_0000_0000_0000,
    ensures
        w == wrap_i32(x as int),
        fits_i32(w as int),
{
    let shifted = x + 0x8000_0000;
    let q = floor_div(shifted, 0x1_0000_0000);
    shifted - q * 0x1_0000_0000 - 0x8000_0000
}

/// `x` reduced to 64 bits in two's complement.
pub fn wrap64(x: i128) -> (w: i128)
    requires
        -0x4000_0000_0000_0000_0000_0000 <= x <= 0x4000_0000_0000_0000_0000_0000,
    ensures
        w == wrap_i64(x as int),
        fits_i64(w as int),
{
    let shifted = x + 0x8000_0000_0000_0000;
    let q = floor_div(shifted, 0x1_0000_0000_0000_0000);
    shifted - q * 0x1_0000_0000_0000_0000 - 0x8000_0000_0000_0000
}

} // verus!
