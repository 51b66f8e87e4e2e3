//! Degree/radian conversions and the tangent the camera needs, all in
//! fixed-point: the circle functions are Taylor polynomials, exact as the
//! fixed-point expressions their spec functions spell out.

use vstd::prelude::*;
use crate::fixed::{ONE, in_range, fsub_s, fadd_s, fmul_s, fdiv_s, fsub, fadd, fmul, fdiv};

verus! {

/// The fixed-point representation of pi.
pub const PI: i64 = 3_141_593;

pub open spec fn deg2rad_s(deg: int) -> int {
    fdiv_s(fmul_s(deg, PI as int), 180 * ONE)
}

pub fn deg2rad(deg: i64) -> (r: i64)
    requires
        in_range(deg as int),
    ensures
        r as int == deg2rad_s(deg as int),
        in_range(r as int),
{
    fdiv(fmul(deg, PI), 180 * ONE)
}

pub open spec fn rad2deg_s(rad: int) -> int {
    fdiv_s(fmul_s(rad, 180 * ONE), PI as int)
}

pub fn rad2deg(rad: i64) -> (r: i64)
    requires
        in_range(rad as int),
    ensures
        r as int == rad2deg_s(rad as int),
        in_range(r as int),
{
    fdiv(fmul(rad, 180 * ONE), PI)
}

/// The sine polynomial: `x - x^3/6 + x^5/120 - x^7/5040 + x^9/362880`.
pub open spec fn sin_poly_s(x: int) -> int {
    let x2 = fmul_s(x, x);
    let x3 = fmul_s(x2, x);
    let x5 = fmul_s(x3, x2);
    let x7 = fmul_s(x5, x2);
    let x9 = fmul_s(x7, x2);
    fadd_s(
        fsub_s(fadd_s(fsub_s(x, fdiv_s(x3, 6 * ONE)), fdiv_s(x5, 120 * ONE)), fdiv_s(
            x7,
            5040 * ONE,
        )),
        fdiv_s(x9, 362880 * ONE),
    )
}

/// The cosine polynomial: `1 - x^2/2 + x^4/24 - x^6/720 + x^8/40320`.
pub open spec fn cos_poly_s(x: int) -> int {
    let x2 = fmul_s(x, x);
    let x4 = fmul_s(x2, x2);
    let x6 = fmul_s(x4, x2);
    let x8 = fmul_s(x6, x2);
    fadd_s(
        fsub_s(fadd_s(fsub_s(ONE as int, fdiv_s(x2, 2 * ONE)), fdiv_s(x4, 24 * ONE)), fdiv_s(
            x6,
            720 * ONE,
        )),
        fdiv_s(x8, 40320 * ONE),
    )
}

pub fn sin(x: i64) -> (r: i64)
    requires
        in_range(x as int),
    ensures
        r as int == sin_poly_s(x as int),
        in_range(r as int),
{
    let x2: i64 = fmul(x, x);
    let x3: i64 = fmul(x2, x);
    let x5: i64 = fmul(x3, x2);
    let x7: i64 = fmul(x5, x2);
    let x9: i64 = fmul(x7, x2);
    fadd(
        fsub(fadd(fsub(x, fdiv(x3, 6 * ONE)), fdiv(x5, 120 * ONE)), fdiv(x7, 5040 * ONE)),
        fdiv(x9, 362880 * ONE),
    )
}

pub fn cos(x: i64) -> (r: i64)
    requires
        in_range(x as int),
    ensures
        r as int == cos_poly_s(x as int),
        in_range(r as int),
{
    let x2: i64 = fmul(x, x);
    let x4: i64 = fmul(x2, x2);
    let x6: i64 = fmul(x4, x2);
    let x8: i64 = fmul(x6, x2);
    fadd(
        fsub(fadd(fsub(ONE, fdiv(x2, 2 * ONE)), fdiv(x4, 24 * ONE)), fdiv(x6, 720 * ONE)),
        fdiv(x8, 40320 * ONE),
    )
}

pub open spec fn tan_s(x: int) -> int {
    fdiv_s(sin_poly_s(x), cos_poly_s(x))
}

/// Tangent as the quotient of the two polynomials; meaningful on the first
/// quadrant, where the camera's half-angle lives.
pub fn tan(x: i64) -> (r: i64)
    requires
        in_range(x as int),
    ensures
        r as int == tan_s(x as int),
        in_range(r as int),
{
    fdiv(sin(x), cos(x))
}

} // verus!
