//! Ray casting: a ray, its point-at-parameter operation, and the standalone
//! sphere-distance probes over the quadratic from the implicit sphere equation.

use vstd::prelude::*;
use crate::fixed::{ONE, in_range, fsub_s, fneg_s, fmul_s, fdiv_s, fsqrt_s, fsub, fneg, fmul, fdiv,
    fsqrt};
use crate::geometry::{Vec3, V3s, Point, vwf, vadd_s, vsub_s, vscale_s, dot_s, len_sq_s, dot};

verus! {

pub ghost struct RayS {
    pub orig: V3s,
    pub dir: V3s,
}

/// Ray representation: an origin and a direction of any nonzero length.
#[derive(Clone, Copy, Debug)]
pub struct Ray {
    pub orig: Point,
    pub dir: Vec3,
}

impl View for Ray {
    type V = RayS;

    open spec fn view(&self) -> RayS {
        RayS { orig: self.orig@, dir: self.dir@ }
    }
}

pub open spec fn rwf(r: RayS) -> bool {
    vwf(r.orig) && vwf(r.dir)
}

/// The point a parameter `t` along a ray: `orig + t * dir`.
pub open spec fn ray_at_s(r: RayS, t: int) -> V3s {
    vadd_s(r.orig, vscale_s(r.dir, t))
}

impl Ray {
    /// Get point at a distance along the ray
    pub fn at(&self, t: i64) -> (p: Point)
        requires
            rwf(self@),
            in_range(t as int),
        ensures
            p@ == ray_at_s(self@, t as int),
            vwf(p@),
    {
        self.orig.add(&self.dir.mul(t))
    }
}

/// The distance a ray travels before striking a sphere, by the full quadratic
/// formula; a negative discriminant reports a miss as `-ONE`.
pub open spec fn hit_sphere_s(center: V3s, radius: int, r: RayS) -> int {
    let oc = vsub_s(r.orig, center);
    let a = dot_s(r.dir, r.dir);
    let b = fmul_s(2 * ONE, dot_s(oc, r.dir));
    let c = fsub_s(dot_s(oc, oc), fmul_s(radius, radius));
    let disc = fsub_s(fmul_s(b, b), fmul_s(4 * ONE, fmul_s(a, c)));
    if disc < 0 {
        -ONE as int
    } else {
        fdiv_s(fsub_s(fneg_s(b), fsqrt_s(disc)), fmul_s(2 * ONE, a))
    }
}

pub fn hit_sphere(center: &Point, radius: i64, r: &Ray) -> (t: i64)
    requires
        vwf(center@),
        in_range(radius as int),
        rwf(r@),
    ensures
        t as int == hit_sphere_s(center@, radius as int, r@),
        in_range(t as int),
{
    // Sphere hits are the points where:
    //      x^2 + y^2 + z^2 - r^2 = 0
    // For a sphere of radius r, center C, it's all the points P satisfying:
    //      (P-C)·(P-C) - r^2 = 0
    // Rewritten over the ray A + t*b, the hits are the roots of the quadratic
    //      t^2 * b·b + t * 2*b·(A-C) + (A-C)·(A-C) - r^2 = 0
    let oc: Vec3 = r.orig.sub(center);
    let a: i64 = dot(&r.dir, &r.dir);
    let b: i64 = fmul(2 * ONE, dot(&oc, &r.dir));
    let c: i64 = fsub(dot(&oc, &oc), fmul(radius, radius));
    let disc: i64 = fsub(fmul(b, b), fmul(4 * ONE, fmul(a, c)));

    if disc < 0 {
        return -ONE;
    }
    fdiv(fsub(fneg(b), fsqrt(disc)), fmul(2 * ONE, a))
}

/// Same as `hit_sphere_s`, with the half-b simplification: one fewer multiply
/// and no factor of two.
pub open spec fn hit_sphere2_s(center: V3s, radius: int, r: RayS) -> int {
    let oc = vsub_s(r.orig, center);
    let a = len_sq_s(r.dir);
    let half_b = dot_s(oc, r.dir);
    let c = fsub_s(len_sq_s(oc), fmul_s(radius, radius));
    let disc = fsub_s(fmul_s(half_b, half_b), fmul_s(a, c));
    if disc < 0 {
        -ONE as int
    } else {
        fdiv_s(fsub_s(fneg_s(half_b), fsqrt_s(disc)), a)
    }
}

// Same as hit_sphere(), but simplified formulas, mostly removes sqrt's
pub fn hit_sphere2(center: &Point, radius: i64, r: &Ray) -> (t: i64)
    requires
        vwf(center@),
        in_range(radius as int),
        rwf(r@),
    ensures
        t as int == hit_sphere2_s(center@, radius as int, r@),
        in_range(t as int),
{
    let oc: Vec3 = r.orig.sub(center);
    let a: i64 = r.dir.len_squared();
    let half_b: i64 = dot(&oc, &r.dir);
    let c: i64 = fsub(oc.len_squared(), fmul(radius, radius));
    let disc: i64 = fsub(fmul(half_b, half_b), fmul(a, c));

    if disc < 0 {
        return -ONE;
    }
    fdiv(fsub(fneg(half_b), fsqrt(disc)), a)
}

} // verus!
