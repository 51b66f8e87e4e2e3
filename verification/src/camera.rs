//! The camera: derived once from vertical field of view and the
//! look-from/look-at/up vectors over a right-handed basis, then mapping
//! normalized image-plane coordinates to world-space rays.

use vstd::prelude::*;
use crate::fixed::{ONE, in_range, fmul_s, fdiv_s, fmul, fdiv};
use crate::geometry::{Vec3, V3s, Point, vwf, vadd_s, vsub_s, vdiv_s, vscale_s, cross_s, normed_s};
use crate::ray::{Ray, RayS, rwf};
use crate::trig::{deg2rad_s, tan_s, deg2rad, tan};

verus! {

pub ghost struct CameraS {
    pub origin: V3s,
    pub lower_left_corner: V3s,
    pub horizontal: V3s,
    pub vertical: V3s,
}

/// Represent a camera.
#[derive(Clone, Copy, Debug)]
pub struct Camera {
    pub origin: Point,
    pub lower_left_corner: Point,
    pub horizontal: Vec3,
    pub vertical: Vec3,
}

impl View for Camera {
    type V = CameraS;

    open spec fn view(&self) -> CameraS {
        CameraS {
            origin: self.origin@,
            lower_left_corner: self.lower_left_corner@,
            horizontal: self.horizontal@,
            vertical: self.vertical@,
        }
    }
}

pub open spec fn cwf(c: CameraS) -> bool {
    vwf(c.origin) && vwf(c.lower_left_corner) && vwf(c.horizontal) && vwf(c.vertical)
}

/// The derivation of the camera frame, step for step: half-angle tangent,
/// viewport extents, the right-handed basis `(u, v, w)`, and the corner.
pub open spec fn camera_s(lookfrom: V3s, lookat: V3s, vup: V3s, vfov: int, aspect_ratio: int)
    -> CameraS {
    let theta = deg2rad_s(vfov);
    let h = tan_s(fdiv_s(theta, 2 * ONE));
    let vp_height = fmul_s(2 * ONE, h);
    let vp_width = fmul_s(aspect_ratio, vp_height);
    let w = normed_s(vsub_s(lookfrom, lookat));
    let u = normed_s(cross_s(vup, w));
    let v = cross_s(w, u);
    let origin = lookfrom;
    let horizontal = vscale_s(u, vp_width);
    let vertical = vscale_s(v, vp_height);
    let lower_left_corner = vsub_s(
        vsub_s(vsub_s(origin, vdiv_s(horizontal, 2 * ONE)), vdiv_s(vertical, 2 * ONE)),
        w,
    );
    CameraS { origin, lower_left_corner, horizontal, vertical }
}

/// The ray toward normalized image-plane coordinates `(s, t)`:
/// `lower_left + s * horizontal + t * vertical - origin` from the origin.
pub open spec fn get_ray_s(c: CameraS, s: int, t: int) -> RayS {
    RayS {
        orig: c.origin,
        dir: vsub_s(
            vadd_s(vadd_s(c.lower_left_corner, vscale_s(c.horizontal, s)), vscale_s(c.vertical, t)),
            c.origin,
        ),
    }
}

impl Camera {
    pub fn new(lookfrom: Point, lookat: Point, vup: Vec3, vfov: i64, aspect_ratio: i64) -> (cam:
        Camera)
        requires
            vwf(lookfrom@),
            vwf(lookat@),
            vwf(vup@),
            in_range(vfov as int),
            in_range(aspect_ratio as int),
        ensures
            cam@ == camera_s(lookfrom@, lookat@, vup@, vfov as int, aspect_ratio as int),
            cwf(cam@),
    {
        let theta: i64 = deg2rad(vfov);
        let h: i64 = tan(fdiv(theta, 2 * ONE));

        let vp_height: i64 = fmul(2 * ONE, h);
        let vp_width: i64 = fmul(aspect_ratio, vp_height);

        let w: Vec3 = lookfrom.sub(&lookat).normed();
        let u: Vec3 = vup.cross(&w).normed();
        let v: Vec3 = w.cross(&u);

        let origin: Point = lookfrom;
        let horizontal: Vec3 = u.mul(vp_width);
        let vertical: Vec3 = v.mul(vp_height);
        let lower_left_corner: Point = origin.sub(&horizontal.div(2 * ONE)).sub(
            &vertical.div(2 * ONE),
        ).sub(&w);

        Camera { origin, lower_left_corner, horizontal, vertical }
    }

    /// Generate a ray from the camera origin toward the given normalized
    /// coordinates: `(0, 0)` is the lower left corner, `(1, 1)` the upper
    /// right.
    pub fn get_ray(&self, s: i64, t: i64) -> (r: Ray)
        requires
            cwf(self@),
            in_range(s as int),
            in_range(t as int),
        ensures
            r@ == get_ray_s(self@, s as int, t as int),
            rwf(r@),
    {
        let dir: Vec3 = self.lower_left_corner.add(&self.horizontal.mul(s)).add(
            &self.vertical.mul(t),
        ).sub(&self.origin);

        Ray { orig: self.origin, dir }
    }
}

} // verus!
