//! 3D vectors over the fixed-point scalars, with the sampling helpers the
//! scattering model draws from.

use vstd::prelude::*;
use crate::fixed::{
    ONE, EPS, in_range, iabs, tdiv_s, fadd_s, fsub_s, fneg_s, fmul_s, fdiv_s, fsqrt_s, fadd, fsub,
    fneg, fmul, fdiv, fsqrt, fabs, lemma_fmul_self_nonneg,
};
use crate::rng::rand_range;

verus! {

/// A vector as three mathematical integers: the model every contract speaks of.
pub ghost struct V3s {
    pub x: int,
    pub y: int,
    pub z: int,
}

/// Vec3 representation: three fixed-point components. Doubles as a point and
/// as a color (channels in `[0, ONE]` before gamma correction).
#[derive(Clone, Copy, Debug, PartialEq, Eq, Structural)]
pub struct Vec3 {
    pub x: i64,
    pub y: i64,
    pub z: i64,
}

impl View for Vec3 {
    type V = V3s;

    open spec fn view(&self) -> V3s {
        V3s { x: self.x as int, y: self.y as int, z: self.z as int }
    }
}

pub open spec fn vwf(v: V3s) -> bool {
    in_range(v.x) && in_range(v.y) && in_range(v.z)
}

pub open spec fn vadd_s(a: V3s, b: V3s) -> V3s {
    V3s { x: fadd_s(a.x, b.x), y: fadd_s(a.y, b.y), z: fadd_s(a.z, b.z) }
}

pub open spec fn vsub_s(a: V3s, b: V3s) -> V3s {
    V3s { x: fsub_s(a.x, b.x), y: fsub_s(a.y, b.y), z: fsub_s(a.z, b.z) }
}

pub open spec fn vneg_s(a: V3s) -> V3s {
    V3s { x: fneg_s(a.x), y: fneg_s(a.y), z: fneg_s(a.z) }
}

/// Scale by a scalar.
pub open spec fn vscale_s(a: V3s, s: int) -> V3s {
    V3s { x: fmul_s(a.x, s), y: fmul_s(a.y, s), z: fmul_s(a.z, s) }
}

/// Multiply componentwise, as colors are attenuated.
pub open spec fn vmul_s(a: V3s, b: V3s) -> V3s {
    V3s { x: fmul_s(a.x, b.x), y: fmul_s(a.y, b.y), z: fmul_s(a.z, b.z) }
}

pub open spec fn vdiv_s(a: V3s, s: int) -> V3s {
    V3s { x: fdiv_s(a.x, s), y: fdiv_s(a.y, s), z: fdiv_s(a.z, s) }
}

pub open spec fn dot_s(a: V3s, b: V3s) -> int {
    fadd_s(fadd_s(fmul_s(a.x, b.x), fmul_s(a.y, b.y)), fmul_s(a.z, b.z))
}

pub open spec fn cross_s(a: V3s, b: V3s) -> V3s {
    V3s {
        x: fsub_s(fmul_s(a.y, b.z), fmul_s(a.z, b.y)),
        y: fsub_s(fmul_s(a.z, b.x), fmul_s(a.x, b.z)),
        z: fsub_s(fmul_s(a.x, b.y), fmul_s(a.y, b.x)),
    }
}

pub open spec fn len_sq_s(a: V3s) -> int {
    dot_s(a, a)
}

pub open spec fn len_s(a: V3s) -> int {
    fsqrt_s(len_sq_s(a))
}

pub open spec fn normed_s(a: V3s) -> V3s {
    vdiv_s(a, len_s(a))
}

pub open spec fn near_zero_s(a: V3s) -> bool {
    iabs(a.x) < EPS && iabs(a.y) < EPS && iabs(a.z) < EPS
}

/// A dot product of a negated vector is the negated dot product.
pub proof fn lemma_dot_neg_left(a: V3s, b: V3s)
    requires
        vwf(a),
        vwf(b),
    ensures
        dot_s(vneg_s(a), b) == -dot_s(a, b),
{
    crate::fixed::lemma_fmul_neg_left(a.x, b.x);
    crate::fixed::lemma_fmul_neg_left(a.y, b.y);
    crate::fixed::lemma_fmul_neg_left(a.z, b.z);
}

/// A dot product against a negated vector is the negated dot product.
pub proof fn lemma_dot_neg_right(a: V3s, b: V3s)
    requires
        vwf(a),
        vwf(b),
    ensures
        dot_s(a, vneg_s(b)) == -dot_s(a, b),
{
    crate::fixed::lemma_fmul_neg_right(a.x, b.x);
    crate::fixed::lemma_fmul_neg_right(a.y, b.y);
    crate::fixed::lemma_fmul_neg_right(a.z, b.z);
}

/// The squared length never goes negative: it is a clipped sum of squares.
pub proof fn lemma_len_sq_nonneg(a: V3s)
    ensures
        0 <= len_sq_s(a),
{
    lemma_fmul_self_nonneg(a.x);
    lemma_fmul_self_nonneg(a.y);
    lemma_fmul_self_nonneg(a.z);
}

impl Vec3 {
    pub fn new(x: i64, y: i64, z: i64) -> (v: Vec3)
        requires
            in_range(x as int),
            in_range(y as int),
            in_range(z as int),
        ensures
            v@ == (V3s { x: x as int, y: y as int, z: z as int }),
            vwf(v@),
    {
        Vec3 { x, y, z }
    }

    pub fn zero() -> (v: Vec3)
        ensures
            v@ == (V3s { x: 0int, y: 0int, z: 0int }),
            vwf(v@),
    {
        Vec3 { x: 0, y: 0, z: 0 }
    }

    pub fn unit_x() -> (v: Vec3)
        ensures
            v@ == (V3s { x: ONE as int, y: 0int, z: 0int }),
            vwf(v@),
    {
        Vec3 { x: ONE, y: 0, z: 0 }
    }

    pub fn unit_y() -> (v: Vec3)
        ensures
            v@ == (V3s { x: 0int, y: ONE as int, z: 0int }),
            vwf(v@),
    {
        Vec3 { x: 0, y: ONE, z: 0 }
    }

    pub fn white() -> (v: Vec3)
        ensures
            v@ == (V3s { x: ONE as int, y: ONE as int, z: ONE as int }),
            vwf(v@),
    {
        Vec3 { x: ONE, y: ONE, z: ONE }
    }

    pub fn black() -> (v: Vec3)
        ensures
            v@ == (V3s { x: 0int, y: 0int, z: 0int }),
            vwf(v@),
    {
        Vec3 { x: 0, y: 0, z: 0 }
    }

    pub fn unit_z() -> (v: Vec3)
        ensures
            v@ == (V3s { x: 0int, y: 0int, z: ONE as int }),
            vwf(v@),
    {
        Vec3 { x: 0, y: 0, z: ONE }
    }

    pub fn add(&self, other: &Vec3) -> (r: Vec3)
        requires
            vwf(self@),
            vwf(other@),
        ensures
            r@ == vadd_s(self@, other@),
            vwf(r@),
    {
        Vec3 { x: fadd(self.x, other.x), y: fadd(self.y, other.y), z: fadd(self.z, other.z) }
    }

    pub fn sub(&self, other: &Vec3) -> (r: Vec3)
        requires
            vwf(self@),
            vwf(other@),
        ensures
            r@ == vsub_s(self@, other@),
            vwf(r@),
    {
        Vec3 { x: fsub(self.x, other.x), y: fsub(self.y, other.y), z: fsub(self.z, other.z) }
    }

    pub fn neg(&self) -> (r: Vec3)
        requires
            vwf(self@),
        ensures
            r@ == vneg_s(self@),
            vwf(r@),
    {
        Vec3 { x: fneg(self.x), y: fneg(self.y), z: fneg(self.z) }
    }

    /// Scale by a scalar.
    pub fn mul(&self, s: i64) -> (r: Vec3)
        requires
            vwf(self@),
            in_range(s as int),
        ensures
            r@ == vscale_s(self@, s as int),
            vwf(r@),
    {
        Vec3 { x: fmul(self.x, s), y: fmul(self.y, s), z: fmul(self.z, s) }
    }

    /// Multiply componentwise.
    pub fn mul_vec(&self, other: &Vec3) -> (r: Vec3)
        requires
            vwf(self@),
            vwf(other@),
        ensures
            r@ == vmul_s(self@, other@),
            vwf(r@),
    {
        Vec3 { x: fmul(self.x, other.x), y: fmul(self.y, other.y), z: fmul(self.z, other.z) }
    }

    pub fn div(&self, s: i64) -> (r: Vec3)
        requires
            vwf(self@),
            in_range(s as int),
        ensures
            r@ == vdiv_s(self@, s as int),
            vwf(r@),
    {
        Vec3 { x: fdiv(self.x, s), y: fdiv(self.y, s), z: fdiv(self.z, s) }
    }

    pub fn dot(&self, other: &Vec3) -> (r: i64)
        requires
            vwf(self@),
            vwf(other@),
        ensures
            r as int == dot_s(self@, other@),
            in_range(r as int),
    {
        fadd(fadd(fmul(self.x, other.x), fmul(self.y, other.y)), fmul(self.z, other.z))
    }

    pub fn cross(&self, other: &Vec3) -> (r: Vec3)
        requires
            vwf(self@),
            vwf(other@),
        ensures
            r@ == cross_s(self@, other@),
            vwf(r@),
    {
        let px: i64 = self.x;
        let py: i64 = self.y;
        let pz: i64 = self.z;
        let qx: i64 = other.x;
        let qy: i64 = other.y;
        let qz: i64 = other.z;
        Vec3 {
            x: fsub(fmul(py, qz), fmul(pz, qy)),
            y: fsub(fmul(pz, qx), fmul(px, qz)),
            z: fsub(fmul(px, qy), fmul(py, qx)),
        }
    }

    pub fn len_squared(&self) -> (r: i64)
        requires
            vwf(self@),
        ensures
            r as int == len_sq_s(self@),
            0 <= r,
            in_range(r as int),
    {
        proof {
            lemma_len_sq_nonneg(self@);
        }
        self.dot(self)
    }

    pub fn len(&self) -> (r: i64)
        requires
            vwf(self@),
        ensures
            r as int == len_s(self@),
            0 <= r,
            in_range(r as int),
    {
        fsqrt(self.len_squared())
    }

    /// Returns normed Vec3; for a vector of length between one half and one
    /// the result is of unit length up to a few dozen millionths.
    pub fn normed(&self) -> (r: Vec3)
        requires
            vwf(self@),
        ensures
            r@ == normed_s(self@),
            vwf(r@),
            ONE as int / 4 <= len_sq_s(self@) <= ONE ==> ONE - 16 <= len_s(r@) <= ONE + 24,
    {
        proof {
            if ONE as int / 4 <= len_sq_s(self@) <= ONE {
                lemma_normed_approx_unit(self@);
            }
        }
        let l: i64 = self.len();
        Vec3 { x: fdiv(self.x, l), y: fdiv(self.y, l), z: fdiv(self.z, l) }
    }

    /// Normalize in place.
    pub fn norm(&mut self)
        requires
            vwf(old(self)@),
        ensures
            final(self)@ == normed_s(old(self)@),
            vwf(final(self)@),
    {
        let len: i64 = self.len();
        self.x = fdiv(self.x, len);
        self.y = fdiv(self.y, len);
        self.z = fdiv(self.z, len);
    }

    /// Returns true if the vector is close to 0 in all dimensions
    pub fn near_zero(&self) -> (r: bool)
        requires
            vwf(self@),
        ensures
            r == near_zero_s(self@),
    {
        fabs(self.x) < EPS && fabs(self.y) < EPS && fabs(self.z) < EPS
    }

    /// Returns a random vector with components in the `[0, 1)` range.
    pub fn random(rng: &mut rand::rngs::StdRng) -> (v: Vec3)
        ensures
            vwf(v@),
            0 <= v@.x < ONE,
            0 <= v@.y < ONE,
            0 <= v@.z < ONE,
    {
        Vec3 { x: rand_range(rng, 0, ONE), y: rand_range(rng, 0, ONE), z: rand_range(rng, 0, ONE) }
    }

    /// Returns a random vector with components in a given range.
    pub fn random_range(rng: &mut rand::rngs::StdRng, lo: i64, hi: i64) -> (v: Vec3)
        requires
            lo < hi,
            in_range(lo as int),
            in_range(hi as int),
        ensures
            vwf(v@),
            lo <= v@.x < hi,
            lo <= v@.y < hi,
            lo <= v@.z < hi,
    {
        Vec3 {
            x: rand_range(rng, lo, hi),
            y: rand_range(rng, lo, hi),
            z: rand_range(rng, lo, hi),
        }
    }
}

/// Normalizing a vector whose length lies between one half and one yields a
/// vector of approximately unit length: the truncations of the three
/// divisions, of the squarings and of the square roots stay within a few
/// dozen millionths. Vectors much shorter than the floor can normalize far
/// from unit length — near the quantum the quotients are dominated by
/// truncation — which is why the random direction draws reject them.
pub proof fn lemma_normed_approx_unit(v: V3s)
    requires
        vwf(v),
        ONE as int / 4 <= len_sq_s(v) <= ONE,
    ensures
        ONE - 16 <= len_s(normed_s(v)) <= ONE + 24,
{
    let s = len_sq_s(v);
    let m1 = fmul_s(v.x, v.x);
    let m2 = fmul_s(v.y, v.y);
    let m3 = fmul_s(v.z, v.z);
    lemma_fmul_self_nonneg(v.x);
    lemma_fmul_self_nonneg(v.y);
    lemma_fmul_self_nonneg(v.z);
    // the sum of the squared components never saturates: it is at most ONE
    assert(s == m1 + m2 + m3 && m1 <= ONE && m2 <= ONE && m3 <= ONE);
    assert(v.x * v.x >= 0 && v.y * v.y >= 0 && v.z * v.z >= 0) by (nonlinear_arith);
    assert(m1 == (v.x * v.x) / (ONE as int));
    assert(m2 == (v.y * v.y) / (ONE as int));
    assert(m3 == (v.z * v.z) / (ONE as int));
    vstd::arithmetic::div_mod::lemma_fundamental_div_mod(v.x * v.x, ONE as int);
    vstd::arithmetic::div_mod::lemma_mod_bound(v.x * v.x, ONE as int);
    vstd::arithmetic::div_mod::lemma_fundamental_div_mod(v.y * v.y, ONE as int);
    vstd::arithmetic::div_mod::lemma_mod_bound(v.y * v.y, ONE as int);
    vstd::arithmetic::div_mod::lemma_fundamental_div_mod(v.z * v.z, ONE as int);
    vstd::arithmetic::div_mod::lemma_mod_bound(v.z * v.z, ONE as int);
    let xx = v.x * v.x + v.y * v.y + v.z * v.z;
    assert(ONE * s <= xx < ONE * s + 3 * ONE);
    // each component is at most a whisker above one
    assert(iabs(v.x) <= ONE + 2 && iabs(v.y) <= ONE + 2 && iabs(v.z) <= ONE + 2)
        by (nonlinear_arith)
        requires
            v.x * v.x + v.y * v.y + v.z * v.z <= 1_000_000int * 1_000_000 + 3 * 1_000_000,
            v.x * v.x >= 0 && v.y * v.y >= 0 && v.z * v.z >= 0,
    ;

    // the length lies between one half and one
    let l = len_s(v);
    crate::fixed::lemma_isqrt_bounds(s * ONE);
    assert(500_000int * 500_000 == 250_000_000_000 && 1_000_000int * 1_000_000
        == 1_000_000_000_000) by (nonlinear_arith);
    assert((500_000int + 1) * (500_000int + 1) > 250_000_000_000) by (nonlinear_arith);
    assert((1_000_000int + 1) * (1_000_000int + 1) > 1_000_000_000_000) by (nonlinear_arith);
    crate::fixed::lemma_isqrt_unique(250_000_000_000, 500_000);
    crate::fixed::lemma_isqrt_unique(1_000_000_000_000, 1_000_000);
    crate::fixed::lemma_isqrt_le(250_000_000_000, s * ONE);
    crate::fixed::lemma_isqrt_le(s * ONE, 1_000_000_000_000);
    assert(500_000 <= l <= ONE);
    assert(s * ONE <= l * l + 2 * l) by (nonlinear_arith)
        requires
            s * ONE < (l + 1) * (l + 1),
    ;
    assert(l * l <= s * ONE);

    // the three divisions, each with its truncation error
    let q1 = fdiv_s(v.x, l);
    let q2 = fdiv_s(v.y, l);
    let q3 = fdiv_s(v.z, l);
    crate::fixed::lemma_fdiv_err(v.x, l);
    crate::fixed::lemma_fdiv_err(v.y, l);
    crate::fixed::lemma_fdiv_err(v.z, l);
    let e1 = v.x * ONE - q1 * l;
    let e2 = v.y * ONE - q2 * l;
    let e3 = v.z * ONE - q3 * l;
    assert(iabs(e1) < l && iabs(e2) < l && iabs(e3) < l);

    // the squared length of the quotient vector, against the true one
    let yy = q1 * q1 + q2 * q2 + q3 * q3;
    assert((q1 * l) * (q1 * l) == (q1 * q1) * (l * l) && (v.x * ONE - e1) * (v.x * ONE - e1) == (
    v.x * v.x) * (ONE as int * ONE) - 2 * (v.x * e1) * ONE + e1 * e1) by (nonlinear_arith);
    assert((q2 * l) * (q2 * l) == (q2 * q2) * (l * l) && (v.y * ONE - e2) * (v.y * ONE - e2) == (
    v.y * v.y) * (ONE as int * ONE) - 2 * (v.y * e2) * ONE + e2 * e2) by (nonlinear_arith);
    assert((q3 * l) * (q3 * l) == (q3 * q3) * (l * l) && (v.z * ONE - e3) * (v.z * ONE - e3) == (
    v.z * v.z) * (ONE as int * ONE) - 2 * (v.z * e3) * ONE + e3 * e3) by (nonlinear_arith);
    let cross = v.x * e1 + v.y * e2 + v.z * e3;
    let ee = e1 * e1 + e2 * e2 + e3 * e3;
    assert(yy * (l * l) == xx * (ONE as int * ONE) - 2 * cross * ONE + ee) by (nonlinear_arith)
        requires
            (q1 * q1) * (l * l) == (v.x * v.x) * (ONE as int * ONE) - 2 * (v.x * e1) * ONE + e1
                * e1,
            (q2 * q2) * (l * l) == (v.y * v.y) * (ONE as int * ONE) - 2 * (v.y * e2) * ONE + e2
                * e2,
            (q3 * q3) * (l * l) == (v.z * v.z) * (ONE as int * ONE) - 2 * (v.z * e3) * ONE + e3
                * e3,
            yy == q1 * q1 + q2 * q2 + q3 * q3,
            xx == v.x * v.x + v.y * v.y + v.z * v.z,
            cross == v.x * e1 + v.y * e2 + v.z * e3,
            ee == e1 * e1 + e2 * e2 + e3 * e3,
    ;
    assert(iabs(v.x * e1) <= 1_000_002 * l && iabs(v.y * e2) <= 1_000_002 * l && iabs(v.z * e3)
        <= 1_000_002 * l) by (nonlinear_arith)
        requires
            iabs(v.x) <= 1_000_002 && iabs(v.y) <= 1_000_002 && iabs(v.z) <= 1_000_002,
            iabs(e1) <= l && iabs(e2) <= l && iabs(e3) <= l,
            l >= 0,
    ;
    assert(0 <= e1 * e1 <= l * l && 0 <= e2 * e2 <= l * l && 0 <= e3 * e3 <= l * l)
        by (nonlinear_arith)
        requires
            iabs(e1) <= l && iabs(e2) <= l && iabs(e3) <= l,
    ;
    assert(iabs(cross) <= 3_000_006 * l && 0 <= ee <= 3 * (l * l));

    // lower bound on the quotient vector's squared length
    assert(xx * (ONE as int * ONE) >= (l * l) * (ONE as int * ONE)) by (nonlinear_arith)
        requires
            xx >= ONE * s,
            ONE * s >= l * l,
    ;
    assert((12 * ONE + 24) * l >= 6 * (ONE as int) * (ONE + 2)) by (nonlinear_arith)
        requires
            l >= 500_000,
    ;
    assert(2 * cross * ONE <= (12 * ONE + 24) * (l * l)) by (nonlinear_arith)
        requires
            iabs(cross) <= 3_000_006 * l,
            (12 * ONE + 24) * l >= 6 * (ONE as int) * (ONE + 2),
            l >= 500_000,
    ;
    assert(yy * (l * l) >= (ONE as int * ONE - 12 * ONE - 24) * (l * l)) by (nonlinear_arith)
        requires
            yy * (l * l) == xx * (ONE as int * ONE) - 2 * cross * ONE + ee,
            xx * (ONE as int * ONE) >= (l * l) * (ONE as int * ONE),
            2 * cross * ONE <= (12 * ONE + 24) * (l * l),
            ee >= 0,
    ;
    assert(yy >= ONE as int * ONE - 12 * ONE - 24) by (nonlinear_arith)
        requires
            yy * (l * l) >= (ONE as int * ONE - 12 * ONE - 24) * (l * l),
            l >= 500_000,
    ;

    // upper bound on the quotient vector's squared length
    assert(yy * (l * l) <= (l * l + 2 * l + 3 * ONE) * (ONE as int * ONE) + 6 * (ONE as int) * (ONE
        + 2) * l + 3 * (l * l)) by (nonlinear_arith)
        requires
            yy * (l * l) == xx * (ONE as int * ONE) - 2 * cross * ONE + ee,
            xx < ONE * s + 3 * ONE,
            ONE * s <= l * l + 2 * l,
            iabs(cross) <= 3_000_006 * l,
            ee <= 3 * (l * l),
    ;
    assert((l * l + 2 * l + 3 * ONE) * (ONE as int * ONE) + 6 * (ONE as int) * (ONE + 2) * l + 3 * (
    l * l) <= (ONE as int * ONE + 48 * ONE) * (l * l)) by (nonlinear_arith)
        requires
            500_000 <= l <= 1_000_000int,
    ;
    assert(yy <= ONE as int * ONE + 48 * ONE) by (nonlinear_arith)
        requires
            yy * (l * l) <= (ONE as int * ONE + 48 * ONE) * (l * l),
            l >= 500_000,
    ;

    // back through the squared length of the normalized vector
    let nv = normed_s(v);
    assert(nv.x == q1 && nv.y == q2 && nv.z == q3);
    let n1 = fmul_s(q1, q1);
    let n2 = fmul_s(q2, q2);
    let n3 = fmul_s(q3, q3);
    lemma_fmul_self_nonneg(q1);
    lemma_fmul_self_nonneg(q2);
    lemma_fmul_self_nonneg(q3);
    assert(0 <= q1 * q1 <= (2 * ONE + 4) * (2 * ONE + 4) && 0 <= q2 * q2 <= (2 * ONE + 4) * (2
        * ONE + 4) && 0 <= q3 * q3 <= (2 * ONE + 4) * (2 * ONE + 4)) by (nonlinear_arith)
        requires
            iabs(q1) <= 2 * ONE + 4 && iabs(q2) <= 2 * ONE + 4 && iabs(q3) <= 2 * ONE + 4,
    ;
    vstd::arithmetic::div_mod::lemma_fundamental_div_mod(q1 * q1, ONE as int);
    vstd::arithmetic::div_mod::lemma_mod_bound(q1 * q1, ONE as int);
    vstd::arithmetic::div_mod::lemma_fundamental_div_mod(q2 * q2, ONE as int);
    vstd::arithmetic::div_mod::lemma_mod_bound(q2 * q2, ONE as int);
    vstd::arithmetic::div_mod::lemma_fundamental_div_mod(q3 * q3, ONE as int);
    vstd::arithmetic::div_mod::lemma_mod_bound(q3 * q3, ONE as int);
    vstd::arithmetic::div_mod::lemma_div_is_ordered(q1 * q1, (2 * ONE + 4) * (2 * ONE + 4), ONE as int);
    vstd::arithmetic::div_mod::lemma_div_is_ordered(q2 * q2, (2 * ONE + 4) * (2 * ONE + 4), ONE as int);
    vstd::arithmetic::div_mod::lemma_div_is_ordered(q3 * q3, (2 * ONE + 4) * (2 * ONE + 4), ONE as int);
    assert((2 * (ONE as int) + 4) * (2 * ONE + 4) / (ONE as int) == 4_000_016) by (nonlinear_arith);
    assert(n1 == (q1 * q1) / (ONE as int) && n2 == (q2 * q2) / (ONE as int) && n3 == (q3 * q3) / (
    ONE as int));
    let s2 = len_sq_s(nv);
    assert(s2 == n1 + n2 + n3);
    assert(ONE * s2 <= yy < ONE * s2 + 3 * ONE);
    assert(ONE * s2 >= ONE as int * ONE - 15 * ONE - 24);
    assert(ONE as int * ONE - 15 * ONE - 24 >= ONE * (ONE - 16));
    assert(ONE * s2 <= ONE * (ONE + 48));
    assert(ONE - 16 <= s2 <= ONE + 48);

    // and through the final square root
    let l2 = len_s(nv);
    crate::fixed::lemma_isqrt_bounds(s2 * ONE);
    assert((ONE as int - 16) * (ONE as int - 16) <= (ONE - 16) * ONE <= s2 * ONE)
        by (nonlinear_arith)
        requires
            s2 >= ONE as int - 16,
    ;
    assert(l2 + 1 > ONE as int - 16) by (nonlinear_arith)
        requires
            (l2 + 1) * (l2 + 1) > s2 * ONE,
            s2 * ONE >= (ONE as int - 16) * (ONE as int - 16),
            l2 >= 0,
    ;
    assert(s2 * ONE <= (ONE as int + 48) * ONE < (ONE as int + 25) * (ONE as int + 25))
        by (nonlinear_arith)
        requires
            s2 <= ONE as int + 48,
    ;
    assert(l2 < ONE as int + 25) by (nonlinear_arith)
        requires
            l2 * l2 <= s2 * ONE,
            s2 * ONE < (ONE as int + 25) * (ONE as int + 25),
            l2 >= 0,
    ;
}

impl Default for Vec3 {
    /// The zero vector.
    fn default() -> (v: Vec3)
        ensures
            v@ == (V3s { x: 0int, y: 0int, z: 0int }),
    {
        Vec3 { x: 0, y: 0, z: 0 }
    }
}

/// Dot product of 2 Vec3
pub fn dot(a: &Vec3, b: &Vec3) -> (r: i64)
    requires
        vwf(a@),
        vwf(b@),
    ensures
        r as int == dot_s(a@, b@),
        in_range(r as int),
{
    a.dot(b)
}

pub open spec fn lerp_s(a: V3s, b: V3s, t: int) -> V3s {
    vadd_s(vscale_s(a, fsub_s(ONE as int, t)), vscale_s(b, t))
}

/// Interpolate: `(1 - t) * a + t * b`.
pub fn lerp(a: &Vec3, b: &Vec3, t: i64) -> (r: Vec3)
    requires
        vwf(a@),
        vwf(b@),
        in_range(t as int),
    ensures
        r@ == lerp_s(a@, b@, t as int),
        vwf(r@),
{
    a.mul(fsub(ONE, t)).add(&b.mul(t))
}

pub open spec fn reflect_s(v: V3s, n: V3s) -> V3s {
    vsub_s(v, vscale_s(n, fmul_s(2 * ONE, dot_s(n, v))))
}

/// Mirror `v` about the normal `n`: `v - 2 * dot(n, v) * n`.
pub fn reflect(v: &Vec3, n: &Vec3) -> (r: Vec3)
    requires
        vwf(v@),
        vwf(n@),
    ensures
        r@ == reflect_s(v@, n@),
        vwf(r@),
{
    v.sub(&n.mul(fmul(2 * ONE, dot(n, v))))
}

pub open spec fn fmin_s(a: int, b: int) -> int {
    if a < b {
        a
    } else {
        b
    }
}

pub open spec fn refract_s(uv: V3s, n: V3s, etai_over_etat: int) -> V3s {
    let cos_theta = fmin_s(dot_s(vneg_s(uv), n), ONE as int);
    let r_out_perp = vscale_s(vadd_s(uv, vscale_s(n, cos_theta)), etai_over_etat);
    let r_out_parallel = vscale_s(
        n,
        fneg_s(fsqrt_s(iabs(fsub_s(ONE as int, len_sq_s(r_out_perp))))),
    );
    vadd_s(r_out_perp, r_out_parallel)
}

/// A mirror reflection about the vertical unit axis flips exactly the
/// vertical component: incoming light leaves at the same angle.
pub proof fn lemma_reflect_about_unit_y(v: V3s)
    requires
        vwf(v),
        2 * iabs(v.y) <= crate::fixed::VBIG,
    ensures
        reflect_s(v, V3s { x: 0int, y: ONE as int, z: 0int }) == (V3s {
            x: v.x,
            y: -v.y,
            z: v.z,
        }),
{
    let n = V3s { x: 0int, y: ONE as int, z: 0int };
    crate::fixed::lemma_fmul_whole(0int, v.x);
    crate::fixed::lemma_fmul_whole(1int, v.y);
    crate::fixed::lemma_fmul_whole(0int, v.z);
    assert(dot_s(n, v) == v.y);
    crate::fixed::lemma_fmul_whole(2int, v.y);
    let k = fmul_s(2 * ONE, v.y);
    assert(k == 2 * v.y);
    crate::fixed::lemma_fmul_whole(0int, k);
    crate::fixed::lemma_fmul_whole(1int, k);
    assert(vscale_s(n, k) == (V3s { x: 0int, y: k, z: 0int }));
}

/// At normal incidence with a matched refraction index, the ray passes
/// through unchanged: the perpendicular part cancels and the parallel part is
/// the incoming direction itself.
pub proof fn lemma_refract_matched_normal_incidence(n: V3s)
    requires
        vwf(n),
        dot_s(n, n) == ONE,
    ensures
        refract_s(vneg_s(n), n, ONE as int) == vneg_s(n),
{
    let u = vneg_s(n);
    assert(vneg_s(u) == n);
    let cos_theta = fmin_s(dot_s(vneg_s(u), n), ONE as int);
    assert(cos_theta == ONE);
    crate::fixed::lemma_fmul_one(n.x);
    crate::fixed::lemma_fmul_one(n.y);
    crate::fixed::lemma_fmul_one(n.z);
    assert(vscale_s(n, cos_theta) == n);
    let zero = V3s { x: 0int, y: 0int, z: 0int };
    assert(vadd_s(u, n) == zero);
    crate::fixed::lemma_fmul_one(0int);
    assert(vscale_s(zero, ONE as int) == zero);
    let r_out_perp = vscale_s(vadd_s(u, vscale_s(n, cos_theta)), ONE as int);
    assert(r_out_perp == zero);
    assert(fmul_s(0int, 0int) == 0);
    assert(len_sq_s(zero) == 0);
    assert(iabs(fsub_s(ONE as int, 0)) == ONE);
    assert((1_000_000int) * (1_000_000int) == 1_000_000_000_000int) by (nonlinear_arith);
    assert((1_000_001int) * (1_000_001int) > 1_000_000_000_000int) by (nonlinear_arith);
    crate::fixed::lemma_isqrt_unique(1_000_000_000_000int, 1_000_000int);
    assert(fsqrt_s(ONE as int) == ONE);
    crate::fixed::lemma_fmul_neg_right(n.x, ONE as int);
    crate::fixed::lemma_fmul_neg_right(n.y, ONE as int);
    crate::fixed::lemma_fmul_neg_right(n.z, ONE as int);
    assert(vscale_s(n, fneg_s(ONE as int)) == u);
    assert(vadd_s(zero, u) == u);
}

/// Bend `uv` through the surface with normal `n` by Snell's law, guarding the
/// square root as the design asks: the radicand is taken at its absolute value.
pub fn refract(uv: &Vec3, n: &Vec3, etai_over_etat: i64) -> (r: Vec3)
    requires
        vwf(uv@),
        vwf(n@),
        in_range(etai_over_etat as int),
    ensures
        r@ == refract_s(uv@, n@, etai_over_etat as int),
        vwf(r@),
{
    let d: i64 = dot(&uv.neg(), n);
    let cos_theta: i64 = if d < ONE {
        d
    } else {
        ONE
    };
    let r_out_perp: Vec3 = uv.add(&n.mul(cos_theta)).mul(etai_over_etat);
    let r_out_parallel: Vec3 = n.mul(fneg(fsqrt(fabs(fsub(ONE, r_out_perp.len_squared())))));
    r_out_perp.add(&r_out_parallel)
}

/// Rejection-sample a vector strictly inside the unit sphere; after a run of
/// bad draws, settle for a fixed interior point rather than looping on.
pub fn random_in_unit_sphere(rng: &mut rand::rngs::StdRng) -> (r: Vec3)
    ensures
        vwf(r@),
        len_sq_s(r@) < ONE,
{
    let mut tries: usize = 0;
    while tries < 64
        invariant
            tries <= 64,
        decreases 64 - tries,
    {
        let v: Vec3 = Vec3::random_range(rng, -ONE, ONE);
        if v.len_squared() < ONE {
            return v;
        }
        tries = tries + 1;
    }
    let fallback: Vec3 = Vec3 { x: ONE / 2, y: 0, z: 0 };
    proof {
        assert(500_000int * 500_000int == 250_000_000_000int) by (nonlinear_arith);
        assert(250_000_000_000int / 1_000_000int == 250_000int);
        assert(tdiv_s(250_000_000_000int, 1_000_000int) == 250_000int);
        assert(fmul_s(500_000int, 500_000int) == 250_000int);
        assert(len_sq_s(fallback@) == 250_000int);
    }
    fallback
}

/// A random direction of (approximately) unit length: the normalization of a
/// draw from the unit sphere. A draw too close to zero would normalize into
/// saturation, so such draws are rejected like the out-of-sphere ones, with
/// the same fixed interior fallback after a run of bad luck.
pub fn random_unit_vector(rng: &mut rand::rngs::StdRng) -> (r: Vec3)
    ensures
        vwf(r@),
        exists|u: V3s| vwf(u) && ONE / 4 <= len_sq_s(u) < ONE && r@ == normed_s(u),
        ONE - 16 <= len_s(r@) <= ONE + 24,
{
    let mut tries: usize = 0;
    while tries < 64
        invariant
            tries <= 64,
        decreases 64 - tries,
    {
        let v: Vec3 = random_in_unit_sphere(rng);
        if v.len_squared() >= ONE / 4 {
            return v.normed();
        }
        tries = tries + 1;
    }
    let fallback: Vec3 = Vec3 { x: ONE / 2, y: 0, z: 0 };
    proof {
        assert(500_000int * 500_000int == 250_000_000_000int) by (nonlinear_arith);
        assert(250_000_000_000int / 1_000_000int == 250_000int);
        assert(tdiv_s(250_000_000_000int, 1_000_000int) == 250_000int);
        assert(fmul_s(500_000int, 500_000int) == 250_000int);
        assert(len_sq_s(fallback@) == 250_000int);
    }
    fallback.normed()
}

/// A random vector inside the unit sphere, flipped into the hemisphere of the
/// given normal.
pub fn random_in_hemisphere(rng: &mut rand::rngs::StdRng, normal: &Vec3) -> (r: Vec3)
    requires
        vwf(normal@),
    ensures
        vwf(r@),
        len_sq_s(r@) < ONE,
        dot_s(r@, normal@) >= 0,
{
    let in_unit_sphere: Vec3 = random_in_unit_sphere(rng);
    if dot(&in_unit_sphere, normal) > 0 {
        in_unit_sphere
    } else {
        let flipped: Vec3 = in_unit_sphere.neg();
        proof {
            crate::fixed::lemma_fmul_neg_neg(in_unit_sphere@.x, in_unit_sphere@.x);
            crate::fixed::lemma_fmul_neg_neg(in_unit_sphere@.y, in_unit_sphere@.y);
            crate::fixed::lemma_fmul_neg_neg(in_unit_sphere@.z, in_unit_sphere@.z);
            lemma_dot_neg_left(in_unit_sphere@, normal@);
        }
        flipped
    }
}

/// Scale three 8-bit channels into `[0, 1]` colors.
pub fn make_color_from_u8(r: u8, g: u8, b: u8) -> (c: Vec3)
    ensures
        c@.x == fdiv_s(r as int * ONE, 255 * ONE),
        c@.y == fdiv_s(g as int * ONE, 255 * ONE),
        c@.z == fdiv_s(b as int * ONE, 255 * ONE),
        vwf(c@),
{
    Vec3 {
        x: fdiv(r as i64 * ONE, 255 * ONE),
        y: fdiv(g as i64 * ONE, 255 * ONE),
        z: fdiv(b as i64 * ONE, 255 * ONE),
    }
}

/// A point is a location in space.
pub type Point = Vec3;

/// A color holds three channels.
pub type Color = Vec3;

} // verus!
