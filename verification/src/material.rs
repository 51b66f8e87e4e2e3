//! Material scattering behaviour: diffuse, metallic and refractive surfaces,
//! as a tagged variant dispatched by pattern match.

use vstd::prelude::*;
use crate::fixed::{ONE, in_range, iabs, fsub_s, fadd_s, fmul_s, fdiv_s, fsqrt_s, fsub, fadd, fmul,
    fdiv, fsqrt, fabs};
use crate::geometry::{Vec3, V3s, Color, vwf, vadd_s, vscale_s, vneg_s, dot_s, len_sq_s, normed_s,
    fmin_s, near_zero_s, reflect_s, refract_s, dot, reflect, refract, random_unit_vector,
    random_in_unit_sphere};
use crate::ray::{Ray, rwf};
use crate::scene::{HitRecord, hwf};
use crate::rng::rand_unit;

verus! {

/// Material scattering behaviour: a tagged variant over the three surface
/// kinds, each immutable and referenced by index from the scene's spheres.
#[derive(Clone, Copy, Debug)]
pub enum Material {
    /// Lambertian (diffuse) material.
    Lambertian { albedo: Color },
    /// Shiny metal (reflective) material, glossy for a nonzero fuzz.
    Metal { albedo: Color, fuzz: i64 },
    /// Refractive material.
    Dielectric { refraction_index: i64 },
}

pub open spec fn mwf(m: Material) -> bool {
    match m {
        Material::Lambertian { albedo } => vwf(albedo@),
        Material::Metal { albedo, fuzz } => vwf(albedo@) && in_range(fuzz as int),
        Material::Dielectric { refraction_index } => in_range(refraction_index as int),
    }
}

/// The attenuation a material applies when it scatters: the albedo of a
/// diffuse or metallic surface, neutral white for a dielectric.
pub open spec fn scatter_attenuation_s(m: Material) -> V3s {
    match m {
        Material::Lambertian { albedo } => albedo@,
        Material::Metal { albedo, fuzz } => albedo@,
        Material::Dielectric { refraction_index } => V3s {
            x: ONE as int,
            y: ONE as int,
            z: ONE as int,
        },
    }
}

/// Fifth power, as the Schlick polynomial wants it.
pub open spec fn pow5_s(x: int) -> int {
    fmul_s(fmul_s(fmul_s(fmul_s(x, x), x), x), x)
}

/// Schlick's approximation of Fresnel reflectance.
pub open spec fn reflectance_s(cosine: int, ref_idx: int) -> int {
    let r0 = fdiv_s(fsub_s(ONE as int, ref_idx), fadd_s(ONE as int, ref_idx));
    let r0sq = fmul_s(r0, r0);
    fadd_s(r0sq, fmul_s(fsub_s(ONE as int, r0sq), pow5_s(fsub_s(ONE as int, cosine))))
}

fn reflectance(cosine: i64, ref_idx: i64) -> (r: i64)
    requires
        in_range(cosine as int),
        in_range(ref_idx as int),
    ensures
        r as int == reflectance_s(cosine as int, ref_idx as int),
        in_range(r as int),
{
    let r0: i64 = fdiv(fsub(ONE, ref_idx), fadd(ONE, ref_idx));
    let r0sq: i64 = fmul(r0, r0);
    fadd(r0sq, fmul(fsub(ONE, r0sq), fmul(fmul(fmul(fmul(fsub(ONE, cosine), fsub(ONE, cosine)),
        fsub(ONE, cosine)), fsub(ONE, cosine)), fsub(ONE, cosine))))
}

/// The ratio of refraction indices across the struck surface: the ray enters
/// the medium on a front face and leaves it otherwise.
pub open spec fn refraction_ratio_s(front_face: bool, refraction_index: int) -> int {
    if front_face {
        fdiv_s(ONE as int, refraction_index)
    } else {
        refraction_index
    }
}

pub open spec fn cos_theta_s(u: V3s, n: V3s) -> int {
    fmin_s(dot_s(vneg_s(u), n), ONE as int)
}

pub open spec fn sin_theta_s(u: V3s, n: V3s) -> int {
    let c = cos_theta_s(u, n);
    fsqrt_s(iabs(fsub_s(ONE as int, fmul_s(c, c))))
}

/// Snell's law has no solution: total internal reflection.
pub open spec fn cannot_refract_s(ratio: int, u: V3s, n: V3s) -> bool {
    fmul_s(ratio, sin_theta_s(u, n)) > ONE
}

impl Material {
    /// Scatter or absorb a ray. Returns the attenuation and the outgoing ray,
    /// or `None` when the ray is absorbed.
    pub fn scatter(&self, r_in: &Ray, rec: &HitRecord, rng: &mut rand::rngs::StdRng) -> (res:
        Option<(Color, Ray)>)
        requires
            mwf(*self),
            rwf(r_in@),
            hwf(rec@),
        ensures
            match *self {
                Material::Lambertian { albedo } => match res {
                    Some((att, sc)) => att@ == albedo@ && sc@.orig == rec@.p && rwf(sc@) && (
                    !near_zero_s(rec@.normal) ==> !near_zero_s(sc@.dir)) && (exists|u: V3s|
                        vwf(u) && ONE - 16 <= crate::geometry::len_s(u) <= ONE + 24 && sc@.dir == (
                        if near_zero_s(vadd_s(rec@.normal, u)) {
                            rec@.normal
                        } else {
                            vadd_s(rec@.normal, u)
                        })),
                    None => false,
                },
                Material::Metal { albedo, fuzz } => (match res {
                    Some((att, sc)) => att@ == albedo@ && sc@.orig == rec@.p && rwf(sc@)
                        && dot_s(sc@.dir, rec@.normal) > 0 && (exists|p: V3s|
                        vwf(p) && len_sq_s(p) < ONE && sc@.dir == vadd_s(
                            reflect_s(normed_s(r_in@.dir), rec@.normal),
                            vscale_s(p, fuzz as int),
                        )) && (fuzz == 0 ==> sc@.dir == reflect_s(
                        normed_s(r_in@.dir),
                        rec@.normal,
                    )),
                    None => exists|p: V3s|
                        vwf(p) && len_sq_s(p) < ONE && dot_s(
                            vadd_s(
                                reflect_s(normed_s(r_in@.dir), rec@.normal),
                                vscale_s(p, fuzz as int),
                            ),
                            rec@.normal,
                        ) <= 0,
                }) && (fuzz == 0 ==> ((res is Some) <==> dot_s(
                    reflect_s(normed_s(r_in@.dir), rec@.normal),
                    rec@.normal,
                ) > 0)),
                Material::Dielectric { refraction_index } => match res {
                    Some((att, sc)) => {
                        let u = normed_s(r_in@.dir);
                        let n = rec@.normal;
                        let ratio = refraction_ratio_s(rec@.front_face, refraction_index as int);
                        att@ == (V3s { x: ONE as int, y: ONE as int, z: ONE as int }) && sc@.orig
                            == rec@.p && rwf(sc@) && (sc@.dir == reflect_s(u, n) || sc@.dir
                            == refract_s(u, n, ratio)) && (cannot_refract_s(ratio, u, n)
                            ==> sc@.dir == reflect_s(u, n)) && (!cannot_refract_s(ratio, u, n)
                            && reflectance_s(cos_theta_s(u, n), ratio) <= 0 ==> sc@.dir
                            == refract_s(u, n, ratio))
                    },
                    None => false,
                },
            },
    {
        match *self {
            Material::Lambertian { albedo } => {
                let u: Vec3 = random_unit_vector(rng);
                let mut scatter_direction: Vec3 = rec.normal.add(&u);
                if scatter_direction.near_zero() {
                    scatter_direction = rec.normal;
                }
                proof {
                    assert(vwf(u@) && ONE - 16 <= crate::geometry::len_s(u@) <= ONE + 24
                        && scatter_direction@ == (if near_zero_s(
                        vadd_s(rec@.normal, u@),
                    ) {
                        rec@.normal
                    } else {
                        vadd_s(rec@.normal, u@)
                    }));
                }
                Some((albedo, Ray { orig: rec.p, dir: scatter_direction }))
            },
            Material::Metal { albedo, fuzz } => {
                let reflected: Vec3 = reflect(&r_in.dir.normed(), &rec.normal);
                let p: Vec3 = random_in_unit_sphere(rng);
                let dir: Vec3 = reflected.add(&p.mul(fuzz));
                let scattered: Ray = Ray { orig: rec.p, dir };
                if dot(&scattered.dir, &rec.normal) > 0 {
                    proof {
                        assert(vwf(p@) && len_sq_s(p@) < ONE && dir@ == vadd_s(
                            reflect_s(normed_s(r_in@.dir), rec@.normal),
                            vscale_s(p@, fuzz as int),
                        ));
                        if fuzz == 0 {
                            assert(dir@ == reflect_s(normed_s(r_in@.dir), rec@.normal));
                        }
                    }
                    Some((albedo, scattered))
                } else {
                    proof {
                        assert(vwf(p@) && len_sq_s(p@) < ONE && dot_s(
                            vadd_s(
                                reflect_s(normed_s(r_in@.dir), rec@.normal),
                                vscale_s(p@, fuzz as int),
                            ),
                            rec@.normal,
                        ) <= 0);
                    }
                    None
                }
            },
            Material::Dielectric { refraction_index } => {
                let attenuation: Color = Vec3::white();
                let refraction_ratio: i64 = if rec.front_face {
                    fdiv(ONE, refraction_index)
                } else {
                    refraction_index
                };
                let unit_dir: Vec3 = r_in.dir.normed();

                let d: i64 = dot(&unit_dir.neg(), &rec.normal);
                let cos_theta: i64 = if d < ONE {
                    d
                } else {
                    ONE
                };
                let sin_theta: i64 = fsqrt(fabs(fsub(ONE, fmul(cos_theta, cos_theta))));
                let cannot_refract: bool = fmul(refraction_ratio, sin_theta) > ONE;
                let direction: Vec3 = if cannot_refract || reflectance(cos_theta, refraction_ratio)
                    > rand_unit(rng) {
                    reflect(&unit_dir, &rec.normal)
                } else {
                    refract(&unit_dir, &rec.normal, refraction_ratio)
                };
                Some((attenuation, Ray { orig: rec.p, dir: direction }))
            },
        }
    }
}

} // verus!
