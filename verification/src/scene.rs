//! Geometry a ray can strike: the hit record, the sphere, and the scene list
//! that resolves the closest intersection along a ray.

use vstd::prelude::*;
use crate::fixed::{ONE, VBIG, in_range, fsub_s, fneg_s, fadd_s, fmul_s, fdiv_s, fsqrt_s, fsub,
    fneg, fadd, fmul, fdiv, fsqrt, lemma_fmul_neg_right, lemma_fmul_nonneg, lemma_fdiv_nonpos,
    lemma_fsqrt_sq_le, lemma_isqrt_bounds, lemma_isqrt_le};
use crate::geometry::{Vec3, V3s, Point, vwf, vsub_s, vneg_s, vdiv_s, dot_s, len_sq_s, dot,
    lemma_dot_neg_right, lemma_len_sq_nonneg};
use crate::ray::{Ray, RayS, rwf, ray_at_s};

verus! {

pub ghost struct HitS {
    pub p: V3s,
    pub normal: V3s,
    pub material_id: int,
    pub t: int,
    pub front_face: bool,
}

/// Define a single ray-to-object hit.
#[derive(Clone, Copy, Debug)]
pub struct HitRecord {
    pub p: Point,
    pub normal: Vec3,
    pub material_id: usize,
    pub t: i64,
    pub front_face: bool,
}

impl View for HitRecord {
    type V = HitS;

    open spec fn view(&self) -> HitS {
        HitS {
            p: self.p@,
            normal: self.normal@,
            material_id: self.material_id as int,
            t: self.t as int,
            front_face: self.front_face,
        }
    }
}

pub open spec fn hwf(h: HitS) -> bool {
    vwf(h.p) && vwf(h.normal) && in_range(h.t) && 0 <= h.material_id
}

impl HitRecord {
    pub fn new() -> (rec: HitRecord)
        ensures
            rec@ == (HitS {
                p: V3s { x: 0int, y: 0int, z: 0int },
                normal: V3s { x: 0int, y: 0int, z: 0int },
                material_id: 0int,
                t: 0int,
                front_face: false,
            }),
            hwf(rec@),
    {
        HitRecord {
            p: Vec3::zero(),
            material_id: 0,
            normal: Vec3::zero(),
            t: 0,
            front_face: false,
        }
    }

    /// Orient the stored normal against the incoming ray: `front_face` holds
    /// when the geometric outward normal already opposes the ray.
    pub fn set_face_normal(&mut self, r: &Ray, outward_normal: &Vec3)
        requires
            rwf(r@),
            vwf(outward_normal@),
            vwf(old(self)@.p),
        ensures
            final(self)@.front_face == (dot_s(r@.dir, outward_normal@) < 0),
            final(self)@.normal == if final(self)@.front_face {
                outward_normal@
            } else {
                vneg_s(outward_normal@)
            },
            final(self)@.p == old(self)@.p,
            final(self)@.material_id == old(self)@.material_id,
            final(self)@.t == old(self)@.t,
            vwf(final(self)@.normal),
            dot_s(r@.dir, final(self)@.normal) <= 0,
    {
        self.front_face = dot(&r.dir, outward_normal) < 0;
        if self.front_face {
            self.normal = outward_normal.clone();
        } else {
            proof {
                lemma_dot_neg_right(r@.dir, outward_normal@);
            }
            self.normal = outward_normal.neg();
        }
    }
}

pub ghost struct SphereS {
    pub center: V3s,
    pub radius: int,
    pub material_id: int,
}

/// Sphere object description.
#[derive(Clone, Copy, Debug)]
pub struct Sphere {
    pub center: Point,
    pub radius: i64,
    pub material_id: usize,
}

impl View for Sphere {
    type V = SphereS;

    open spec fn view(&self) -> SphereS {
        SphereS {
            center: self.center@,
            radius: self.radius as int,
            material_id: self.material_id as int,
        }
    }
}

pub open spec fn swf(s: SphereS) -> bool {
    vwf(s.center) && in_range(s.radius)
}

/// Intersect a ray with one sphere over the window `[t_min, t_max]`: solve
/// the half-b quadratic, prefer the smaller root, fall back to the larger,
/// and report a miss when both lie outside the window.
pub open spec fn sphere_hit_s(s: SphereS, r: RayS, t_min: int, t_max: int) -> Option<HitS> {
    let oc = vsub_s(r.orig, s.center);
    let a = len_sq_s(r.dir);
    let half_b = dot_s(oc, r.dir);
    let c = fsub_s(len_sq_s(oc), fmul_s(s.radius, s.radius));
    let disc = fsub_s(fmul_s(half_b, half_b), fmul_s(a, c));
    if disc < 0 {
        None
    } else {
        let sqrt_disc = fsqrt_s(disc);
        let root1 = fdiv_s(fsub_s(fneg_s(half_b), sqrt_disc), a);
        let root2 = fdiv_s(fadd_s(fneg_s(half_b), sqrt_disc), a);
        let root = if root1 < t_min || t_max < root1 {
            root2
        } else {
            root1
        };
        if root < t_min || t_max < root {
            None
        } else {
            let p = ray_at_s(r, root);
            let outward = vdiv_s(vsub_s(p, s.center), s.radius);
            let ff = dot_s(r.dir, outward) < 0;
            Some(
                HitS {
                    p,
                    normal: if ff {
                        outward
                    } else {
                        vneg_s(outward)
                    },
                    material_id: s.material_id,
                    t: root,
                    front_face: ff,
                },
            )
        }
    }
}

pub open spec fn opt_hit_view(o: Option<HitRecord>) -> Option<HitS> {
    match o {
        Some(h) => Some(h@),
        None => None,
    }
}

/// An accepted hit is oriented against the ray: the record's normal never
/// points with the incoming direction.
pub proof fn lemma_sphere_hit_faces_ray(s: SphereS, r: RayS, t_min: int, t_max: int)
    requires
        swf(s),
        rwf(r),
    ensures
        match sphere_hit_s(s, r, t_min, t_max) {
            Some(h) => dot_s(r.dir, h.normal) <= 0,
            None => true,
        },
{
    match sphere_hit_s(s, r, t_min, t_max) {
        Some(h) => {
            let oc = vsub_s(r.orig, s.center);
            let root = h.t;
            let p = ray_at_s(r, root);
            let outward = vdiv_s(vsub_s(p, s.center), s.radius);
            if !(dot_s(r.dir, outward) < 0) {
                lemma_dot_neg_right(r.dir, outward);
            }
        },
        None => {},
    }
}

impl Sphere {
    pub fn hit(&self, r: &Ray, t_min: i64, t_max: i64) -> (res: Option<HitRecord>)
        requires
            swf(self@),
            rwf(r@),
        ensures
            opt_hit_view(res) == sphere_hit_s(self@, r@, t_min as int, t_max as int),
            match res {
                Some(rec) => hwf(rec@) && rec@.material_id == self@.material_id,
                None => true,
            },
    {
        let oc: Vec3 = r.orig.sub(&self.center);
        let a: i64 = r.dir.len_squared();
        let half_b: i64 = dot(&oc, &r.dir);
        let c: i64 = fsub(oc.len_squared(), fmul(self.radius, self.radius));
        let disc: i64 = fsub(fmul(half_b, half_b), fmul(a, c));

        if disc < 0 {
            return None;
        }

        let sqrt_disc: i64 = fsqrt(disc);

        let mut root: i64 = fdiv(fsub(fneg(half_b), sqrt_disc), a);
        if root < t_min || t_max < root {
            root = fdiv(fadd(fneg(half_b), sqrt_disc), a);
            if root < t_min || t_max < root {
                return None;
            }
        }

        let mut rec: HitRecord = HitRecord::new();
        rec.t = root;
        rec.p = r.at(root);
        let outward_normal: Vec3 = rec.p.sub(&self.center).div(self.radius);
        rec.material_id = self.material_id;
        rec.set_face_normal(r, &outward_normal);
        Some(rec)
    }
}

/// Collection of objects that can be hit by a ray.
#[derive(Debug)]
pub struct HittableList {
    pub objects: Vec<Sphere>,
}

impl View for HittableList {
    type V = Seq<SphereS>;

    open spec fn view(&self) -> Seq<SphereS> {
        self.objects@.map_values(|s: Sphere| s@)
    }
}

pub open spec fn scene_wf(objs: Seq<SphereS>) -> bool {
    forall|i: int| 0 <= i < objs.len() ==> swf(#[trigger] objs[i])
}

/// The closest hit over a list of spheres: each sphere is probed with the
/// window shrunk to the closest hit found so far.
pub open spec fn list_hit_s(objs: Seq<SphereS>, r: RayS, t_min: int, t_max: int) -> Option<HitS>
    decreases objs.len(),
{
    if objs.len() == 0 {
        None
    } else {
        let prev = list_hit_s(objs.drop_last(), r, t_min, t_max);
        let window = match prev {
            Some(h) => h.t,
            None => t_max,
        };
        match sphere_hit_s(objs.last(), r, t_min, window) {
            Some(h) => Some(h),
            None => prev,
        }
    }
}

/// From the center of a sphere, every ray hits: the smaller root lies behind
/// the origin, and the accepted parameter is the radius divided by the
/// direction's length, both taken in the library's arithmetic, where it lands
/// in the window.
pub proof fn lemma_sphere_hit_from_center(s: SphereS, r: RayS, t_min: int, t_max: int)
    requires
        swf(s),
        rwf(r),
        r.orig == s.center,
        0 < s.radius,
        0 <= t_min,
        t_min <= fdiv_s(
            fsqrt_s(fmul_s(len_sq_s(r.dir), fmul_s(s.radius, s.radius))),
            len_sq_s(r.dir),
        ) <= t_max,
    ensures
        sphere_hit_s(s, r, t_min, t_max) is Some,
        sphere_hit_s(s, r, t_min, t_max)->0.t == fdiv_s(
            fsqrt_s(fmul_s(len_sq_s(r.dir), fmul_s(s.radius, s.radius))),
            len_sq_s(r.dir),
        ),
{
    let oc = vsub_s(r.orig, s.center);
    assert(oc == V3s { x: 0int, y: 0int, z: 0int });
    let a = len_sq_s(r.dir);
    let rr = fmul_s(s.radius, s.radius);
    lemma_len_sq_nonneg(r.dir);
    crate::fixed::lemma_fmul_self_nonneg(s.radius);
    assert(fmul_s(0int, r.dir.x) == 0 && fmul_s(0int, r.dir.y) == 0 && fmul_s(0int, r.dir.z) == 0);
    let half_b = dot_s(oc, r.dir);
    assert(half_b == 0);
    assert(len_sq_s(oc) == 0);
    let c = fsub_s(len_sq_s(oc), rr);
    assert(c == -rr);
    lemma_fmul_neg_right(a, rr);
    assert(fmul_s(half_b, half_b) == 0);
    lemma_fmul_nonneg(a, rr);
    let disc = fsub_s(fmul_s(half_b, half_b), fmul_s(a, c));
    assert(disc == fmul_s(a, rr));
    assert(disc >= 0);
    let sq = fsqrt_s(disc);
    lemma_isqrt_bounds(disc * ONE);
    assert(sq <= VBIG) by (nonlinear_arith)
        requires
            sq * sq <= disc * ONE,
            0 <= sq,
            disc <= VBIG,
            VBIG == 4_000_000_000_000_000_000i64,
            ONE == 1_000_000i64,
    ;
    let root1 = fdiv_s(fsub_s(fneg_s(half_b), sq), a);
    assert(fsub_s(fneg_s(half_b), sq) == -sq);
    lemma_fdiv_nonpos(-sq, a);
    let root2 = fdiv_s(fadd_s(fneg_s(half_b), sq), a);
    assert(fadd_s(fneg_s(half_b), sq) == sq);
    // the smaller root is the larger one mirrored, so accepting it at a zero
    // lower bound can only happen when both roots coincide at zero
    assert(root1 == -root2);
    if !(root1 < t_min || t_max < root1) {
        assert(root1 == root2);
    }
}

/// A ray that starts outside a sphere and points away from it never hits:
/// both roots of the quadratic lie at or behind the origin.
pub proof fn lemma_sphere_miss_outside_away(s: SphereS, r: RayS, t_min: int, t_max: int)
    requires
        swf(s),
        rwf(r),
        fsub_s(len_sq_s(vsub_s(r.orig, s.center)), fmul_s(s.radius, s.radius)) > 0,
        dot_s(vsub_s(r.orig, s.center), r.dir) >= 0,
        0 < t_min,
    ensures
        sphere_hit_s(s, r, t_min, t_max) is None,
{
    let oc = vsub_s(r.orig, s.center);
    let a = len_sq_s(r.dir);
    let half_b = dot_s(oc, r.dir);
    let c = fsub_s(len_sq_s(oc), fmul_s(s.radius, s.radius));
    let disc = fsub_s(fmul_s(half_b, half_b), fmul_s(a, c));
    if disc >= 0 {
        lemma_len_sq_nonneg(r.dir);
        lemma_fmul_nonneg(a, c);
        crate::fixed::lemma_fmul_self_nonneg(half_b);
        assert(disc <= fmul_s(half_b, half_b));
        let sq = fsqrt_s(disc);
        lemma_isqrt_le(disc * ONE, fmul_s(half_b, half_b) * ONE);
        lemma_fsqrt_sq_le(half_b);
        assert(sq <= half_b);
        lemma_isqrt_bounds(disc * ONE);
        assert(0 <= sq);
        let num1 = fsub_s(fneg_s(half_b), sq);
        let num2 = fadd_s(fneg_s(half_b), sq);
        assert(num1 <= 0);
        assert(num2 <= 0);
        lemma_fdiv_nonpos(num1, a);
        lemma_fdiv_nonpos(num2, a);
    }
}

/// Shrinking the window to anything still past an accepted hit keeps that
/// hit.
proof fn lemma_sphere_hit_window_some(s: SphereS, r: RayS, t_min: int, w: int, w2: int)
    requires
        sphere_hit_s(s, r, t_min, w) is Some,
        sphere_hit_s(s, r, t_min, w)->0.t <= w2 <= w,
    ensures
        sphere_hit_s(s, r, t_min, w2) == sphere_hit_s(s, r, t_min, w),
{
}

/// A sphere missed over a window stays missed over any narrower window.
proof fn lemma_sphere_hit_window_none(s: SphereS, r: RayS, t_min: int, w: int, w2: int)
    requires
        sphere_hit_s(s, r, t_min, w) is None,
        w2 <= w,
    ensures
        sphere_hit_s(s, r, t_min, w2) is None,
{
}

/// A hit resolved over the scene lands inside the window it was asked for.
pub proof fn lemma_list_hit_in_window(objs: Seq<SphereS>, r: RayS, t_min: int, t_max: int)
    ensures
        match list_hit_s(objs, r, t_min, t_max) {
            Some(h) => t_min <= h.t <= t_max,
            None => true,
        },
    decreases objs.len(),
{
    if objs.len() > 0 {
        lemma_list_hit_in_window(objs.drop_last(), r, t_min, t_max);
    }
}

/// The scene resolves the closest intersection: whenever some sphere accepts
/// a hit over the full window, the scene reports a hit, and never a farther
/// one.
pub proof fn lemma_list_hit_closest(objs: Seq<SphereS>, r: RayS, t_min: int, t_max: int, i: int)
    requires
        0 <= i < objs.len(),
        sphere_hit_s(objs[i], r, t_min, t_max) is Some,
    ensures
        list_hit_s(objs, r, t_min, t_max) is Some,
        list_hit_s(objs, r, t_min, t_max)->0.t <= sphere_hit_s(objs[i], r, t_min, t_max)->0.t,
    decreases objs.len(),
{
    let prev = list_hit_s(objs.drop_last(), r, t_min, t_max);
    let window = match prev {
        Some(h) => h.t,
        None => t_max,
    };
    let ht = sphere_hit_s(objs[i], r, t_min, t_max)->0.t;
    lemma_list_hit_in_window(objs.drop_last(), r, t_min, t_max);
    if i < objs.len() - 1 {
        lemma_list_hit_closest(objs.drop_last(), r, t_min, t_max, i);
        assert(objs.drop_last()[i] == objs[i]);
        let pt = prev->0.t;
        assert(pt <= ht);
        match sphere_hit_s(objs.last(), r, t_min, pt) {
            Some(h2) => {
                assert(h2.t <= pt);
            },
            None => {},
        }
    } else {
        assert(objs.last() == objs[i]);
        match prev {
            Some(ph) => {
                if ht <= ph.t {
                    lemma_sphere_hit_window_some(objs.last(), r, t_min, t_max, ph.t);
                } else {
                    match sphere_hit_s(objs.last(), r, t_min, ph.t) {
                        Some(h2) => {
                            assert(h2.t <= ph.t);
                        },
                        None => {},
                    }
                }
            },
            None => {
                assert(window == t_max);
            },
        }
    }
}

/// The orientation carries over to the scene: whatever sphere won, the
/// returned normal never points with the incoming ray.
pub proof fn lemma_list_hit_faces_ray(objs: Seq<SphereS>, r: RayS, t_min: int, t_max: int)
    requires
        scene_wf(objs),
        rwf(r),
    ensures
        match list_hit_s(objs, r, t_min, t_max) {
            Some(h) => dot_s(r.dir, h.normal) <= 0,
            None => true,
        },
    decreases objs.len(),
{
    if objs.len() > 0 {
        assert(scene_wf(objs.drop_last()));
        lemma_list_hit_faces_ray(objs.drop_last(), r, t_min, t_max);
        let prev = list_hit_s(objs.drop_last(), r, t_min, t_max);
        let window = match prev {
            Some(h) => h.t,
            None => t_max,
        };
        assert(objs.last() == objs[objs.len() - 1]);
        lemma_sphere_hit_faces_ray(objs.last(), r, t_min, window);
    }
}

/// Every sphere's material index points into a table of `n` materials.
pub open spec fn scene_ids_ok(objs: Seq<SphereS>, n: int) -> bool {
    forall|i: int| 0 <= i < objs.len() ==> 0 <= #[trigger] objs[i].material_id < n
}

/// A hit resolved over the scene carries the material index of one of its
/// spheres, so a valid scene never hands out a dangling index.
pub proof fn lemma_list_hit_material(objs: Seq<SphereS>, r: RayS, t_min: int, t_max: int, n: int)
    requires
        scene_ids_ok(objs, n),
    ensures
        match list_hit_s(objs, r, t_min, t_max) {
            Some(h) => 0 <= h.material_id < n,
            None => true,
        },
    decreases objs.len(),
{
    if objs.len() > 0 {
        assert(scene_ids_ok(objs.drop_last(), n));
        lemma_list_hit_material(objs.drop_last(), r, t_min, t_max, n);
        assert(objs.last() == objs[objs.len() - 1]);
    }
}

impl HittableList {
    pub fn new() -> (l: HittableList)
        ensures
            l@ == Seq::<SphereS>::empty(),
    {
        let l = HittableList { objects: Vec::new() };
        proof {
            assert(l@ =~= Seq::<SphereS>::empty());
        }
        l
    }

    pub fn clear(&mut self)
        ensures
            final(self)@ == Seq::<SphereS>::empty(),
    {
        self.objects.clear();
        proof {
            assert(self@ =~= Seq::<SphereS>::empty());
        }
    }

    /// Add an object to the list.
    pub fn add(&mut self, object: &Sphere)
        ensures
            final(self)@ == old(self)@.push(object@),
    {
        self.objects.push(object.clone());
        proof {
            assert(self@ =~= old(self)@.push(object@));
        }
    }

    /// Process a single ray cast: scan every sphere, keeping the closest
    /// accepted hit by shrinking the window's upper bound.
    pub fn hit(&self, r: &Ray, t_min: i64, t_max: i64) -> (res: Option<HitRecord>)
        requires
            scene_wf(self@),
            rwf(r@),
            in_range(t_max as int),
        ensures
            opt_hit_view(res) == list_hit_s(self@, r@, t_min as int, t_max as int),
            match res {
                Some(rec) => hwf(rec@),
                None => true,
            },
    {
        let mut rec: Option<HitRecord> = None;
        let mut closest_so_far: i64 = t_max;

        let n: usize = self.objects.len();
        let mut k: usize = 0;
        while k < n
            invariant
                n == self.objects.len(),
                k <= n,
                scene_wf(self@),
                rwf(r@),
                in_range(t_max as int),
                opt_hit_view(rec) == list_hit_s(self@.take(k as int), r@, t_min as int, t_max as int),
                closest_so_far as int == match opt_hit_view(rec) {
                    Some(h) => h.t,
                    None => t_max as int,
                },
                match rec {
                    Some(h) => hwf(h@),
                    None => true,
                },
            decreases n - k,
        {
            let each: &Sphere = &self.objects[k];
            proof {
                assert(self@[k as int] == each@);
            }
            match each.hit(r, t_min, closest_so_far) {
                Some(temp_rec) => {
                    closest_so_far = temp_rec.t;
                    rec = Some(temp_rec);
                },
                None => {},
            }
            proof {
                assert(self@.take(k as int + 1).drop_last() =~= self@.take(k as int));
                assert(self@.take(k as int + 1).last() == self@[k as int]);
            }
            k = k + 1;
        }
        proof {
            assert(self@.take(n as int) =~= self@);
        }
        rec
    }
}

} // verus!
