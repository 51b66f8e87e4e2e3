//! The light-transport integrator and the frame driver: from a pixel
//! coordinate through stochastic camera rays, scattering and the sky
//! gradient to a quantized 8-bit pixel.

use vstd::prelude::*;
use crate::fixed::{ONE, VBIG, in_range, fadd_s, fmul_s, fdiv_s, fsqrt_s, clamp_s, fadd, fmul,
    fdiv, fsqrt, clamp, lemma_isqrt_unique};
use crate::geometry::{Vec3, V3s, Point, Color, vwf, vadd_s, vsub_s, vscale_s, vmul_s, vdiv_s,
    normed_s, lerp_s, lerp};
use crate::ray::{Ray, RayS, rwf, ray_at_s, hit_sphere2_s, hit_sphere2};
use crate::scene::{Sphere, SphereS, HittableList, scene_wf, scene_ids_ok, list_hit_s,
    lemma_list_hit_material};
use crate::material::{Material, mwf, scatter_attenuation_s};
use crate::camera::{Camera, CameraS, cwf, camera_s, get_ray_s};
use crate::image::{ImageRGBA, ImageS, iwf, px_s, lemma_px_idx_distinct, lemma_px_idx_bound};
use crate::rng::rand_unit;

verus! {

/// The fixed-point representation of one half.
pub const HALF: i64 = 500_000;

/// The lower bound of the hit window: a nonzero epsilon against shadow acne.
pub const T_MIN_HIT: i64 = 1_000;

/// The background: a vertical gradient from white at the horizon to sky blue
/// above, interpolated by the unit direction's vertical component.
pub open spec fn sky_s(r: RayS) -> V3s {
    let unit_direction = normed_s(r.dir);
    let t = fmul_s(HALF as int, fadd_s(unit_direction.y, ONE as int));
    lerp_s(
        V3s { x: ONE as int, y: ONE as int, z: ONE as int },
        V3s { x: HALF as int, y: 700_000, z: ONE as int },
        t,
    )
}

fn sky_color(r: &Ray) -> (c: Color)
    requires
        rwf(r@),
    ensures
        c@ == sky_s(r@),
        vwf(c@),
{
    let unit_direction: Vec3 = r.dir.normed();
    let t: i64 = fmul(HALF, fadd(unit_direction.y, ONE));
    lerp(&Vec3::white(), &Vec3::new(HALF, 700_000, ONE), t)
}

/// The single-sphere probe ray color: the sphere's shaded normal on a hit in
/// front of the camera, the sky otherwise.
pub open spec fn ray_color_s(r: RayS) -> V3s {
    let center = V3s { x: 0, y: 0, z: -ONE as int };
    let t = hit_sphere2_s(center, HALF as int, r);
    if t > 0 {
        let n = normed_s(vsub_s(ray_at_s(r, t), center));
        vscale_s(
            V3s {
                x: fadd_s(n.x, ONE as int),
                y: fadd_s(n.y, ONE as int),
                z: fadd_s(n.z, ONE as int),
            },
            HALF as int,
        )
    } else {
        sky_s(r)
    }
}

/// Using single sphere as input
pub fn ray_color(r: &Ray) -> (c: Color)
    requires
        rwf(r@),
    ensures
        c@ == ray_color_s(r@),
        vwf(c@),
{
    let center: Point = Vec3::new(0, 0, -ONE);
    let t: i64 = hit_sphere2(&center, HALF, r);

    if t > 0 {
        let n: Vec3 = r.at(t).sub(&center).normed();
        return Vec3::new(fadd(n.x, ONE), fadd(n.y, ONE), fadd(n.z, ONE)).mul(HALF);
    }

    sky_color(r)
}

/// Everything the integrator promises of a returned color, whatever the
/// random draws did: it is well formed; black once the bounce budget is
/// spent; the sky gradient when the scene is missed; and on a hit, either
/// black (an absorbed ray, or a chain that ended at black) or the hit
/// material's attenuation multiplied componentwise into some well-formed
/// color of the rest of the bounce chain.
pub open spec fn color_ok_s(
    objs: Seq<SphereS>,
    mats: Seq<Material>,
    r: RayS,
    depth: int,
    c: V3s,
) -> bool {
    &&& vwf(c)
    &&& (depth == 0 ==> c == (V3s { x: 0, y: 0, z: 0 }))
    &&& (depth > 0 && list_hit_s(objs, r, T_MIN_HIT as int, VBIG as int) is None ==> c == sky_s(r))
    &&& (depth > 0 && list_hit_s(objs, r, T_MIN_HIT as int, VBIG as int) is Some ==> {
        let h = list_hit_s(objs, r, T_MIN_HIT as int, VBIG as int)->0;
        ||| c == (V3s { x: 0, y: 0, z: 0 })
        ||| exists|rest: V3s|
            vwf(rest) && c == vmul_s(scatter_attenuation_s(mats[h.material_id]), rest)
    })
}

/// Cast a single ray in the scene and return the computed pixel color.
///
/// As long as a hit scatters, the ray walks on with one bounce less,
/// multiplying attenuations; the walk ends at black when the bounce budget
/// runs out or a ray is absorbed, and at the sky when nothing is hit.
pub fn ray_color_2(
    r: &Ray,
    world: &HittableList,
    depth: usize,
    materials: &Vec<Material>,
    rng: &mut rand::rngs::StdRng,
) -> (c: Color)
    requires
        rwf(r@),
        scene_wf(world@),
        scene_ids_ok(world@, materials@.len() as int),
        forall|m: int| 0 <= m < materials@.len() ==> mwf(#[trigger] materials@[m]),
    ensures
        color_ok_s(world@, materials@, r@, depth as int, c@),
    decreases depth,
{
    if depth == 0 {
        return Vec3::black();
    }

    match world.hit(r, T_MIN_HIT, VBIG) {
        Some(rec) => {
            proof {
                lemma_list_hit_material(
                    world@,
                    r@,
                    T_MIN_HIT as int,
                    VBIG as int,
                    materials@.len() as int,
                );
            }
            match materials[rec.material_id].scatter(r, &rec, rng) {
                Some((attenuation, scattered)) => {
                    let px_color: Color = ray_color_2(&scattered, world, depth - 1, materials, rng);
                    let c: Color = attenuation.mul_vec(&px_color);
                    proof {
                        let m = materials@[rec@.material_id];
                        assert(attenuation@ == scatter_attenuation_s(m));
                        assert(vwf(px_color@) && c@ == vmul_s(
                            scatter_attenuation_s(m),
                            px_color@,
                        ));
                    }
                    c
                },
                None => Vec3::black(),
            }
        },
        None => sky_color(r),
    }
}

/// One channel's way into a byte: gamma-2 correction by square root (negative
/// light is floored first), the clamp to `[0, 0.999]` that keeps the byte
/// below 256, and the `*256` truncation.
pub open spec fn byte_of_s(v: int) -> int {
    let nn = if v < 0 {
        0
    } else {
        v
    };
    let g = fsqrt_s(nn);
    let c = clamp_s(g, 0, 999_000);
    fmul_s(c, 256 * ONE) / (ONE as int)
}

fn to_byte(v: i64) -> (b: u8)
    requires
        in_range(v as int),
    ensures
        b as int == byte_of_s(v as int),
{
    let nn: i64 = if v < 0 {
        0
    } else {
        v
    };
    let g: i64 = fsqrt(nn);
    let c: i64 = clamp(g, 0, 999_000);
    let m: i64 = fmul(c, 256 * ONE);
    proof {
        let p = (c as int) * (256 * ONE);
        assert(0 <= p <= 999_000 * (256 * ONE));
        vstd::arithmetic::div_mod::lemma_div_is_ordered(0, p, ONE as int);
        vstd::arithmetic::div_mod::lemma_div_is_ordered(p, 999_000 * (256 * ONE), ONE as int);
        assert(0 <= m <= 255_744_000);
    }
    ((m as u64) / (ONE as u64)) as u8
}

/// Black goes to a zero byte.
proof fn lemma_byte_of_black()
    ensures
        byte_of_s(0) == 0,
{
    lemma_isqrt_unique(0, 0);
    assert(fmul_s(0, 256 * ONE) == 0);
}

/// The hard-coded materials table of the built-in scene.
pub open spec fn scene_materials_s() -> Seq<Material> {
    seq![
        Material::Lambertian { albedo: Vec3 { x: 800_000, y: 800_000, z: 0 } },
        Material::Lambertian { albedo: Vec3 { x: 700_000, y: 300_000, z: 300_000 } },
        Material::Metal { albedo: Vec3 { x: 800_000, y: 800_000, z: 800_000 }, fuzz: 300_000 },
        Material::Metal { albedo: Vec3 { x: 800_000, y: 600_000, z: 200_000 }, fuzz: ONE },
        Material::Dielectric { refraction_index: 1_500_000 },
        Material::Dielectric { refraction_index: 1_500_000 },
    ]
}

/// The four spheres of the built-in scene.
pub open spec fn scene_objects_s() -> Seq<SphereS> {
    seq![
        SphereS { center: V3s { x: 0, y: 0, z: -ONE as int }, radius: HALF as int, material_id: 4 },
        SphereS {
            center: V3s { x: -ONE as int, y: 0, z: -ONE as int },
            radius: HALF as int,
            material_id: 2,
        },
        SphereS {
            center: V3s { x: ONE as int, y: 0, z: -ONE as int },
            radius: HALF as int,
            material_id: 1,
        },
        SphereS {
            center: V3s { x: 0, y: -100_500_000, z: -ONE as int },
            radius: 100 * ONE,
            material_id: 0,
        },
    ]
}

/// The camera of a frame: at the given position, looking down the negative z
/// axis with a 90 degree vertical field of view.
pub open spec fn frame_camera_s(position: V3s, width: int, height: int) -> CameraS {
    camera_s(
        position,
        V3s { x: 0, y: 0, z: -ONE as int },
        V3s { x: 0, y: ONE as int, z: 0 },
        90 * ONE,
        fdiv_s(width * ONE, height * ONE),
    )
}

/// The jittered image-plane coordinate of index `k` with offset `d`:
/// `(k + d) / (extent - 1)`.
pub open spec fn jitter_s(k: int, d: int, extent: int) -> int {
    fdiv_s(fadd_s(k * ONE, d), (extent - 1) * ONE)
}

/// One admissible sample for pixel `(i, j)`: for some jitter offsets in
/// `[0, 1)`, the color satisfies everything the integrator promises for the
/// camera ray through the jittered coordinates.
pub open spec fn sample_ok_s(
    position: V3s,
    width: int,
    height: int,
    depth: int,
    i: int,
    j: int,
    c: V3s,
) -> bool {
    exists|du: int, dv: int|
        #![trigger jitter_s(i, du, width), jitter_s(j, dv, height)]
        0 <= du < ONE && 0 <= dv < ONE && color_ok_s(
            scene_objects_s(),
            scene_materials_s(),
            get_ray_s(
                frame_camera_s(position, width, height),
                jitter_s(i, du, width),
                jitter_s(j, dv, height),
            ),
            depth,
            c,
        )
}

/// A sum of `n` admissible samples for pixel `(i, j)`.
pub open spec fn sample_sum_ok_s(
    position: V3s,
    width: int,
    height: int,
    depth: int,
    i: int,
    j: int,
    n: int,
    sum: V3s,
) -> bool
    decreases n,
{
    if n <= 0 {
        sum == (V3s { x: 0, y: 0, z: 0 })
    } else {
        exists|prev: V3s, c: V3s|
            #![trigger vadd_s(prev, c)]
            sample_sum_ok_s(position, width, height, depth, i, j, n - 1, prev) && sample_ok_s(
                position,
                width,
                height,
                depth,
                i,
                j,
                c,
            ) && sum == vadd_s(prev, c)
    }
}

/// The pixel a sum of samples quantizes to: the mean of the samples, each
/// channel gamma-corrected, clamped and truncated to a byte, opaque alpha.
pub open spec fn pixel_of_sum_s(sum: V3s, spp: int) -> (u8, u8, u8, u8) {
    let avg = vdiv_s(sum, spp * ONE);
    (byte_of_s(avg.x) as u8, byte_of_s(avg.y) as u8, byte_of_s(avg.z) as u8, 255u8)
}

/// Pixel `(i, j)` of the image holds the quantized mean of `spp` admissible
/// integrator samples.
pub open spec fn pixel_done_s(
    im: ImageS,
    position: V3s,
    width: int,
    height: int,
    depth: int,
    spp: int,
    x: int,
    y: int,
) -> bool {
    exists|sum: V3s|
        sample_sum_ok_s(position, width, height, depth, x, y, spp, sum) && px_s(im, x, y)
            == pixel_of_sum_s(sum, spp)
}

/// One more admissible sample extends an admissible sum.
proof fn lemma_sample_sum_step(
    position: V3s,
    width: int,
    height: int,
    depth: int,
    i: int,
    j: int,
    n: int,
    prev: V3s,
    c: V3s,
)
    requires
        n >= 0,
        sample_sum_ok_s(position, width, height, depth, i, j, n, prev),
        sample_ok_s(position, width, height, depth, i, j, c),
    ensures
        sample_sum_ok_s(position, width, height, depth, i, j, n + 1, vadd_s(prev, c)),
{
    let sum = vadd_s(prev, c);
    assert(sample_sum_ok_s(position, width, height, depth, i, j, n, prev) && sample_ok_s(
        position,
        width,
        height,
        depth,
        i,
        j,
        c,
    ) && sum == vadd_s(prev, c));
}

/// A pixel's property moves to any image showing the same pixel.
proof fn lemma_pixel_done_same(
    im1: ImageS,
    im2: ImageS,
    position: V3s,
    width: int,
    height: int,
    depth: int,
    spp: int,
    x: int,
    y: int,
)
    requires
        pixel_done_s(im1, position, width, height, depth, spp, x, y),
        px_s(im2, x, y) == px_s(im1, x, y),
    ensures
        pixel_done_s(im2, position, width, height, depth, spp, x, y),
{
    let sum = choose|sum: V3s|
        sample_sum_ok_s(position, width, height, depth, x, y, spp, sum) && px_s(im1, x, y)
            == pixel_of_sum_s(sum, spp);
    assert(sample_sum_ok_s(position, width, height, depth, x, y, spp, sum) && px_s(im2, x, y)
        == pixel_of_sum_s(sum, spp));
}

/// Set up a scene and render an image: for every pixel, average the given
/// number of jittered camera rays through the integrator, then gamma-correct,
/// clamp and quantize. A zero bounce budget provably leaves every pixel black;
/// otherwise every pixel holds the quantized mean of admissible integrator
/// samples for its own jittered camera rays.
#[verifier::rlimit(60)]
pub fn render(
    width: usize,
    height: usize,
    max_depth: usize,
    samples_per_pixel: usize,
    position: &Point,
    rng: &mut rand::rngs::StdRng,
) -> (im: ImageRGBA)
    requires
        vwf(position@),
        width * height * 4 <= usize::MAX,
        width <= 100_000,
        height <= 100_000,
        samples_per_pixel <= 1_000_000,
    ensures
        iwf(im@),
        im@.width == width as int,
        im@.height == height as int,
        max_depth == 0 || samples_per_pixel == 0 ==> forall|x: int, y: int|
            0 <= x < width && 0 <= y < height ==> #[trigger] px_s(im@, x, y) == (0u8, 0u8, 0u8,
            255u8),
        forall|x: int, y: int|
            0 <= x < width && 0 <= y < height ==> (#[trigger] px_s(im@, x, y)).3 == 255u8,
        max_depth > 0 && samples_per_pixel > 0 ==> forall|x: int, y: int|
            0 <= x < width && 0 <= y < height ==> #[trigger] pixel_done_s(
                im@,
                position@,
                width as int,
                height as int,
                max_depth as int,
                samples_per_pixel as int,
                x,
                y,
            ),
{
    let aspect_ratio: i64 = fdiv(width as i64 * ONE, height as i64 * ONE);

    let mut im: ImageRGBA = ImageRGBA::new(width, height);

    let mut materials: Vec<Material> = Vec::new();
    materials.push(Material::Lambertian { albedo: Vec3::new(800_000, 800_000, 0) });
    materials.push(Material::Lambertian { albedo: Vec3::new(700_000, 300_000, 300_000) });
    materials.push(Material::Metal { albedo: Vec3::new(800_000, 800_000, 800_000), fuzz: 300_000 });
    materials.push(Material::Metal { albedo: Vec3::new(800_000, 600_000, 200_000), fuzz: ONE });
    materials.push(Material::Dielectric { refraction_index: 1_500_000 });
    materials.push(Material::Dielectric { refraction_index: 1_500_000 });

    let lambertian_green_index: usize = 0;
    let lambertian_pink_index: usize = 1;
    let metal_shiny_index: usize = 2;
    let dielectric_index: usize = 4;

    // world
    let mut world: HittableList = HittableList::new();
    // center sphere
    world.add(
        &Sphere { center: Vec3::new(0, 0, -ONE), radius: HALF, material_id: dielectric_index },
    );
    // left sphere
    world.add(
        &Sphere { center: Vec3::new(-ONE, 0, -ONE), radius: HALF, material_id: metal_shiny_index },
    );
    // right sphere
    world.add(
        &Sphere {
            center: Vec3::new(ONE, 0, -ONE),
            radius: HALF,
            material_id: lambertian_pink_index,
        },
    );
    // ground sphere
    world.add(
        &Sphere {
            center: Vec3::new(0, -100_500_000, -ONE),
            radius: 100 * ONE,
            material_id: lambertian_green_index,
        },
    );
    proof {
        assert forall|i: int| 0 <= i < world@.len() implies crate::scene::swf(#[trigger] world@[i])
            && 0 <= world@[i].material_id < materials@.len() by {
        }
    }

    let cam: Camera = Camera::new(
        *position,
        Vec3::new(0, 0, -ONE),
        Vec3::new(0, ONE, 0),
        90 * ONE,
        aspect_ratio,
    );
    proof {
        assert(world@ =~= scene_objects_s());
        assert(materials@ =~= scene_materials_s());
        assert(cam@ == frame_camera_s(position@, width as int, height as int));
    }

    let mut j: usize = im.height;
    while j > 0
        invariant
            iwf(im@),
            im@.width == width as int,
            im@.height == height as int,
            j <= height,
            width <= 100_000,
            height <= 100_000,
            samples_per_pixel <= 1_000_000,
            scene_wf(world@),
            scene_ids_ok(world@, materials@.len() as int),
            forall|m: int| 0 <= m < materials@.len() ==> mwf(#[trigger] materials@[m]),
            cwf(cam@),
            world@ == scene_objects_s(),
            materials@ == scene_materials_s(),
            cam@ == frame_camera_s(position@, width as int, height as int),
            max_depth == 0 || samples_per_pixel == 0 ==> forall|x: int, y: int|
                0 <= x < width && j <= y < height ==> #[trigger] px_s(im@, x, y) == (0u8, 0u8, 0u8,
                255u8),
            forall|x: int, y: int|
                0 <= x < width && 0 <= y < height ==> (#[trigger] px_s(im@, x, y)).3 == 255u8,
            max_depth > 0 && samples_per_pixel > 0 ==> forall|x: int, y: int|
                0 <= x < width && j <= y < height ==> #[trigger] pixel_done_s(
                    im@,
                    position@,
                    width as int,
                    height as int,
                    max_depth as int,
                    samples_per_pixel as int,
                    x,
                    y,
                ),
        decreases j,
    {
        j = j - 1;

        let mut i: usize = 0;
        while i < width
            invariant
                iwf(im@),
                im@.width == width as int,
                im@.height == height as int,
                j < height,
                i <= width,
                width <= 100_000,
                height <= 100_000,
                samples_per_pixel <= 1_000_000,
                scene_wf(world@),
                scene_ids_ok(world@, materials@.len() as int),
                forall|m: int| 0 <= m < materials@.len() ==> mwf(#[trigger] materials@[m]),
                cwf(cam@),
                max_depth == 0 || samples_per_pixel == 0 ==> forall|x: int, y: int|
                    0 <= x < width && j + 1 <= y < height ==> #[trigger] px_s(im@, x, y) == (
                    0u8,
                    0u8,
                    0u8,
                    255u8,
                ),
                max_depth == 0 || samples_per_pixel == 0 ==> forall|x: int|
                    0 <= x < i ==> #[trigger] px_s(im@, x, j as int) == (0u8, 0u8, 0u8, 255u8),
                forall|x: int, y: int|
                    0 <= x < width && 0 <= y < height ==> (#[trigger] px_s(im@, x, y)).3 == 255u8,
                world@ == scene_objects_s(),
                materials@ == scene_materials_s(),
                cam@ == frame_camera_s(position@, width as int, height as int),
                max_depth > 0 && samples_per_pixel > 0 ==> forall|x: int, y: int|
                    0 <= x < width && j + 1 <= y < height ==> #[trigger] pixel_done_s(
                        im@,
                        position@,
                        width as int,
                        height as int,
                        max_depth as int,
                        samples_per_pixel as int,
                        x,
                        y,
                    ),
                max_depth > 0 && samples_per_pixel > 0 ==> forall|x: int|
                    0 <= x < i ==> #[trigger] pixel_done_s(
                        im@,
                        position@,
                        width as int,
                        height as int,
                        max_depth as int,
                        samples_per_pixel as int,
                        x,
                        j as int,
                    ),
            decreases width - i,
        {
            let mut pixel_color: Color = Vec3::black();

            let mut s: usize = 0;
            while s < samples_per_pixel
                invariant
                    s <= samples_per_pixel,
                    samples_per_pixel <= 1_000_000,
                    width <= 100_000,
                    height <= 100_000,
                    i < width,
                    j < height,
                    scene_wf(world@),
                    scene_ids_ok(world@, materials@.len() as int),
                    forall|m: int| 0 <= m < materials@.len() ==> mwf(#[trigger] materials@[m]),
                    cwf(cam@),
                    vwf(pixel_color@),
                    max_depth == 0 || samples_per_pixel == 0 ==> pixel_color@ == (V3s {
                        x: 0,
                        y: 0,
                        z: 0,
                    }),
                    world@ == scene_objects_s(),
                    materials@ == scene_materials_s(),
                    cam@ == frame_camera_s(position@, width as int, height as int),
                    sample_sum_ok_s(
                        position@,
                        width as int,
                        height as int,
                        max_depth as int,
                        i as int,
                        j as int,
                        s as int,
                        pixel_color@,
                    ),
                decreases samples_per_pixel - s,
            {
                let du: i64 = rand_unit(rng);
                let dv: i64 = rand_unit(rng);
                let u: i64 = fdiv(fadd(i as i64 * ONE, du), (width as i64 - 1) * ONE);
                let v: i64 = fdiv(fadd(j as i64 * ONE, dv), (height as i64 - 1) * ONE);

                let ray: Ray = cam.get_ray(u, v);
                let sample: Color = ray_color_2(&ray, &world, max_depth, &materials, rng);
                let ghost prev_sum = pixel_color@;
                pixel_color = pixel_color.add(&sample);
                proof {
                    assert(sample_ok_s(
                        position@,
                        width as int,
                        height as int,
                        max_depth as int,
                        i as int,
                        j as int,
                        sample@,
                    )) by {
                        assert(jitter_s(i as int, du as int, width as int) == u as int);
                        assert(jitter_s(j as int, dv as int, height as int) == v as int);
                        assert(color_ok_s(
                            scene_objects_s(),
                            scene_materials_s(),
                            get_ray_s(
                                frame_camera_s(position@, width as int, height as int),
                                jitter_s(i as int, du as int, width as int),
                                jitter_s(j as int, dv as int, height as int),
                            ),
                            max_depth as int,
                            sample@,
                        ));
                    }
                    lemma_sample_sum_step(
                        position@,
                        width as int,
                        height as int,
                        max_depth as int,
                        i as int,
                        j as int,
                        s as int,
                        prev_sum,
                        sample@,
                    );
                }
                s = s + 1;
            }
            let ghost sum_total = pixel_color@;
            pixel_color = pixel_color.div(samples_per_pixel as i64 * ONE);
            proof {
                if max_depth == 0 || samples_per_pixel == 0 {
                    if samples_per_pixel as i64 * ONE != 0 {
                        vstd::arithmetic::div_mod::lemma_div_of0(samples_per_pixel as int * ONE);
                    }
                    assert(pixel_color@ == (V3s { x: 0, y: 0, z: 0 }));
                    lemma_byte_of_black();
                }
            }

            // color correct for gamma=2.0, then quantize
            let ir: u8 = to_byte(pixel_color.x);
            let ig: u8 = to_byte(pixel_color.y);
            let ib: u8 = to_byte(pixel_color.z);

            let ghost old_im = im@;
            im.put(i, j, ir, ig, ib, 255);
            proof {
                lemma_px_idx_bound(old_im, i as int, j as int);
                assert(px_s(im@, i as int, j as int) == (ir, ig, ib, 255u8));
                assert forall|x: int, y: int|
                    0 <= x < width && 0 <= y < height && !(x == i as int && y == j as int) implies
                    #[trigger] px_s(im@, x, y) == px_s(old_im, x, y) by {
                    lemma_px_idx_bound(old_im, x, y);
                    lemma_px_idx_distinct(old_im, x, y, i as int, j as int);
                }
                if max_depth > 0 && samples_per_pixel > 0 {
                    assert(px_s(im@, i as int, j as int) == pixel_of_sum_s(
                        sum_total,
                        samples_per_pixel as int,
                    ));
                    assert(pixel_done_s(
                        im@,
                        position@,
                        width as int,
                        height as int,
                        max_depth as int,
                        samples_per_pixel as int,
                        i as int,
                        j as int,
                    )) by {
                        assert(sample_sum_ok_s(
                            position@,
                            width as int,
                            height as int,
                            max_depth as int,
                            i as int,
                            j as int,
                            samples_per_pixel as int,
                            sum_total,
                        ) && px_s(im@, i as int, j as int) == pixel_of_sum_s(
                            sum_total,
                            samples_per_pixel as int,
                        ));
                    }
                    assert forall|x: int, y: int|
                        (0 <= x < width && j + 1 <= y < height) || (0 <= x < i && y
                            == j as int) implies pixel_done_s(
                        im@,
                        position@,
                        width as int,
                        height as int,
                        max_depth as int,
                        samples_per_pixel as int,
                        x,
                        y,
                    ) by {
                        lemma_pixel_done_same(
                            old_im,
                            im@,
                            position@,
                            width as int,
                            height as int,
                            max_depth as int,
                            samples_per_pixel as int,
                            x,
                            y,
                        );
                    }
                }
            }
            i = i + 1;
        }
    }
    im
}

/// The interpolation parameter of the `k`-th inserted point: `k / factor`.
pub open spec fn interp_t_s(factor: int, k: int) -> int {
    fmul_s(fdiv_s(ONE as int, factor * ONE), k * ONE)
}

/// The points inserted strictly between two trajectory stops, up to index `k`.
pub open spec fn mids_s(v: V3s, w: V3s, factor: int, k: int) -> Seq<V3s>
    decreases k,
{
    if k <= 1 {
        Seq::empty()
    } else {
        mids_s(v, w, factor, k - 1) + seq![lerp_s(v, w, interp_t_s(factor, k - 1))]
    }
}

/// One trajectory segment: both endpoints, with `factor - 1` interpolated
/// points between them.
pub open spec fn seg_s(v: V3s, w: V3s, factor: int) -> Seq<V3s> {
    seq![v] + mids_s(v, w, factor, factor) + seq![w]
}

/// The whole trajectory: the segments of consecutive stop pairs, in order.
pub open spec fn interp_s(pts: Seq<V3s>, factor: int) -> Seq<V3s>
    decreases pts.len(),
{
    if pts.len() <= 1 {
        Seq::empty()
    } else {
        interp_s(pts.drop_last(), factor) + seg_s(pts[pts.len() - 2], pts[pts.len() - 1], factor)
    }
}

/// Interpolate positions to make a trajectory.
pub fn interpolate(points: &Vec<Point>, factor: u32) -> (out: Vec<Point>)
    requires
        forall|p: int| 0 <= p < points@.len() ==> vwf(#[trigger] points@[p]@),
    ensures
        out@.map_values(|q: Point| q@) == interp_s(
            points@.map_values(|p: Point| p@),
            factor as int,
        ),
        forall|p: int| 0 <= p < out@.len() ==> vwf(#[trigger] out@[p]@),
{
    let ghost pview = points@.map_values(|p: Point| p@);
    let mut out: Vec<Point> = Vec::new();

    let count: usize = points.len();
    if count < 2 {
        proof {
            assert(out@.map_values(|q: Point| q@) =~= interp_s(pview, factor as int));
        }
        return out;
    }

    let mut i: usize = 1;
    while i < count
        invariant
            1 <= i <= count,
            count == points@.len(),
            2 <= count,
            forall|p: int| 0 <= p < points@.len() ==> vwf(#[trigger] points@[p]@),
            pview == points@.map_values(|p: Point| p@),
            out@.map_values(|q: Point| q@) == interp_s(pview.take(i as int), factor as int),
            forall|p: int| 0 <= p < out@.len() ==> vwf(#[trigger] out@[p]@),
        decreases count - i,
    {
        let v: Point = points[i - 1];
        let w: Point = points[i];
        let ghost base = out@.map_values(|q: Point| q@);
        out.push(v);
        proof {
            assert(out@.map_values(|q: Point| q@) =~= base + seq![v@] + mids_s(
                v@,
                w@,
                factor as int,
                1,
            ));
        }
        let step: i64 = fdiv(ONE, factor as i64 * ONE);
        let mut k: u32 = 1;
        while k < factor
            invariant
                1 <= k,
                k <= factor || k == 1,
                vwf(v@),
                vwf(w@),
                step as int == fdiv_s(ONE as int, factor as int * ONE),
                out@.map_values(|q: Point| q@) == base + seq![v@] + mids_s(
                    v@,
                    w@,
                    factor as int,
                    k as int,
                ),
                forall|p: int| 0 <= p < out@.len() ==> vwf(#[trigger] out@[p]@),
            decreases factor - k,
        {
            let p: Point = lerp(&v, &w, fmul(step, k as i64 * ONE));
            let ghost before = out@.map_values(|q: Point| q@);
            out.push(p);
            proof {
                assert(out@.map_values(|q: Point| q@) =~= before + seq![p@]);
                assert(mids_s(v@, w@, factor as int, k as int + 1) == mids_s(
                    v@,
                    w@,
                    factor as int,
                    k as int,
                ) + seq![lerp_s(v@, w@, interp_t_s(factor as int, k as int))]);
                assert(out@.map_values(|q: Point| q@) =~= base + seq![v@] + mids_s(
                    v@,
                    w@,
                    factor as int,
                    k as int + 1,
                ));
            }
            k = k + 1;
        }
        let ghost before_w = out@.map_values(|q: Point| q@);
        out.push(w);
        proof {
            if factor == 0 {
                assert(mids_s(v@, w@, 0, 1) =~= mids_s(v@, w@, 0, 0));
            }
            assert(out@.map_values(|q: Point| q@) =~= before_w + seq![w@]);
            assert(out@.map_values(|q: Point| q@) =~= base + seg_s(v@, w@, factor as int));
            assert(pview.take(i as int + 1).drop_last() =~= pview.take(i as int));
            assert(pview.take(i as int + 1)[i as int - 1] == v@);
            assert(pview.take(i as int + 1)[i as int] == w@);
            assert(out@.map_values(|q: Point| q@) =~= interp_s(
                pview.take(i as int + 1),
                factor as int,
            ));
        }
        i = i + 1;
    }
    proof {
        assert(pview.take(count as int) =~= pview);
    }
    out
}

} // verus!
