use rt1we::fixed::{ONE, VBIG};
use rt1we::geometry::Vec3;
use rt1we::material::Material;
use rt1we::ray::{hit_sphere, hit_sphere2, Ray};
use rt1we::rng::rng_from_seed;
use rt1we::scene::{HitRecord, HittableList, Sphere};

fn close(a: i64, b: i64, tol: i64) -> bool {
    (a - b).abs() <= tol
}

#[test]
fn test_projection() {
    let r = Ray {
        orig: Vec3 { x: 0, y: 0, z: 0 },
        dir: Vec3 { x: 1 * ONE, y: 1 * ONE, z: 1 * ONE },
    };

    let projected = r.at(5 * ONE);
    let expected = Vec3 { x: 5 * ONE, y: 5 * ONE, z: 5 * ONE };
    assert_eq!(expected, projected);
}

#[test]
fn test_hit_sphere_returns_correct_distance_when_hitting_a_sphere_just_in_front() {
    let center = Vec3 { x: 0, y: 0, z: -1 * ONE };
    let radius = ONE / 2;
    let ray = Ray { orig: Vec3::zero(), dir: Vec3::unit_z().neg() };

    let hit_distance = hit_sphere(&center, radius, &ray);
    assert_eq!(hit_distance, ONE / 2);
    let hit_distance = hit_sphere2(&center, radius, &ray);
    assert_eq!(hit_distance, ONE / 2);
}

#[test]
fn test_hit_sphere_returns_minus_1_when_ray_does_not_hit_the_sphere() {
    let center = Vec3 { x: 0, y: 10 * ONE, z: -1 * ONE };
    let radius = ONE / 2;
    let ray = Ray { orig: Vec3::zero(), dir: Vec3::unit_z().neg() };

    let hit_distance = hit_sphere(&center, radius, &ray);
    assert_eq!(hit_distance, -1 * ONE);
    let hit_distance = hit_sphere2(&center, radius, &ray);
    assert_eq!(hit_distance, -1 * ONE);
}

#[test]
fn test_hitrecord() {
    let mut rec = HitRecord::new();

    let r = Ray { orig: Vec3::zero(), dir: Vec3::unit_z().neg() };

    rec.set_face_normal(&r, &Vec3::unit_x());
    assert!(rec.front_face || rec.normal == Vec3::unit_x().neg());
}

#[test]
fn test_sphere_hit_from_center_distance() {
    // a ray from the sphere's own center strikes at radius / |direction|
    let sphere = Sphere { center: Vec3::zero(), radius: ONE / 2, material_id: 0 };
    let ray = Ray { orig: Vec3::zero(), dir: Vec3 { x: 0, y: 0, z: -1 * ONE } };

    let rec = sphere.hit(&ray, 1_000, VBIG).expect("a ray from the center always hits");
    assert_eq!(rec.t, ONE / 2);
}

#[test]
fn test_sphere_miss_pointing_away() {
    let sphere = Sphere { center: Vec3 { x: 0, y: 0, z: -2 * ONE }, radius: ONE / 2,
        material_id: 0 };
    let ray = Ray { orig: Vec3::zero(), dir: Vec3::unit_z() };

    assert!(sphere.hit(&ray, 1_000, VBIG).is_none());
}

#[test]
fn test_sphere_miss_offset_beyond_radius() {
    let sphere = Sphere { center: Vec3 { x: 3 * ONE, y: 0, z: -2 * ONE }, radius: ONE / 2,
        material_id: 0 };
    let ray = Ray { orig: Vec3::zero(), dir: Vec3::unit_z().neg() };

    assert!(sphere.hit(&ray, 1_000, VBIG).is_none());
}

#[test]
fn test_hit_normal_unit_and_against_ray() {
    let sphere = Sphere { center: Vec3 { x: 0, y: 0, z: -2 * ONE }, radius: ONE, material_id: 0 };
    let ray = Ray {
        orig: Vec3::zero(),
        dir: Vec3 { x: ONE / 4, y: -ONE / 8, z: -1 * ONE }.normed(),
    };

    let rec = sphere.hit(&ray, 1_000, VBIG).expect("the ray points at the sphere");
    assert!(close(rec.normal.len(), ONE, 8));
    assert!(rec.normal.dot(&ray.dir) <= 0);
}

#[test]
fn test_closest_of_two_overlapping_spheres() {
    let mut world = HittableList::new();
    // two overlapping spheres along the ray; the nearer surface wins
    world.add(&Sphere { center: Vec3 { x: 0, y: 0, z: -2 * ONE }, radius: ONE, material_id: 0 });
    world.add(&Sphere { center: Vec3 { x: 0, y: 0, z: -2 * ONE - ONE / 2 }, radius: ONE,
        material_id: 1 });

    let ray = Ray { orig: Vec3::zero(), dir: Vec3::unit_z().neg() };
    let rec = world.hit(&ray, 1_000, VBIG).expect("both spheres lie on the ray");
    assert_eq!(rec.t, 1 * ONE);
    assert_eq!(rec.material_id, 0);

    // the same scene with the spheres swapped returns the same intersection
    let mut swapped = HittableList::new();
    swapped.add(&Sphere { center: Vec3 { x: 0, y: 0, z: -2 * ONE - ONE / 2 }, radius: ONE,
        material_id: 1 });
    swapped.add(&Sphere { center: Vec3 { x: 0, y: 0, z: -2 * ONE }, radius: ONE, material_id: 0 });
    let rec2 = swapped.hit(&ray, 1_000, VBIG).expect("both spheres lie on the ray");
    assert_eq!(rec2.t, 1 * ONE);
    assert_eq!(rec2.material_id, 0);
}

#[test]
fn test_scene_clear_empties_the_list() {
    let mut world = HittableList::new();
    world.add(&Sphere { center: Vec3::zero(), radius: ONE, material_id: 0 });
    world.clear();
    let ray = Ray { orig: Vec3::zero(), dir: Vec3::unit_z().neg() };
    assert!(world.hit(&ray, 1_000, VBIG).is_none());
}

fn hit_on_unit_sphere() -> (Ray, HitRecord) {
    let sphere = Sphere { center: Vec3 { x: 0, y: 0, z: -2 * ONE }, radius: ONE, material_id: 0 };
    let ray = Ray { orig: Vec3::zero(), dir: Vec3::unit_z().neg() };
    let rec = sphere.hit(&ray, 1_000, VBIG).expect("the ray points at the sphere");
    (ray, rec)
}

#[test]
fn test_lambertian_scatter_never_near_zero() {
    let mut rng = rng_from_seed(3);
    let (ray, rec) = hit_on_unit_sphere();
    let mat = Material::Lambertian { albedo: Vec3 { x: 700_000, y: 300_000, z: 300_000 } };

    for _ in 0..32 {
        let (attenuation, scattered) =
            mat.scatter(&ray, &rec, &mut rng).expect("a diffuse surface always scatters");
        assert!(!scattered.dir.near_zero());
        assert_eq!(attenuation, Vec3 { x: 700_000, y: 300_000, z: 300_000 });
        assert_eq!(scattered.orig, rec.p);
    }
}

#[test]
fn test_metal_mirror_reflection_at_pole() {
    let mut rng = rng_from_seed(3);
    // a sphere whose pole faces up; the ray comes in at 45 degrees
    let sphere = Sphere { center: Vec3 { x: 0, y: -2 * ONE, z: 0 }, radius: ONE, material_id: 0 };
    let ray = Ray {
        orig: Vec3 { x: -1 * ONE, y: 0, z: 0 },
        dir: Vec3 { x: 1 * ONE, y: -1 * ONE, z: 0 },
    };
    let rec = sphere.hit(&ray, 1_000, VBIG).expect("the ray strikes the pole");
    assert_eq!(rec.normal, Vec3::unit_y());

    let mat = Material::Metal { albedo: Vec3 { x: 800_000, y: 800_000, z: 800_000 }, fuzz: 0 };
    let (_attenuation, scattered) =
        mat.scatter(&ray, &rec, &mut rng).expect("the reflection leaves the surface");
    let expected = Vec3 { x: 1 * ONE, y: 1 * ONE, z: 0 }.normed();
    assert!((scattered.dir.x - expected.x).abs() <= 2);
    assert!((scattered.dir.y - expected.y).abs() <= 2);
    assert_eq!(scattered.dir.z, 0);
}

#[test]
fn test_dielectric_matched_normal_incidence() {
    let mut rng = rng_from_seed(3);
    let mat = Material::Dielectric { refraction_index: ONE };
    // normal incidence: the incoming direction opposes the outward normal,
    // and the matched index leaves the ray unchanged
    let ray = Ray { orig: Vec3 { x: 0, y: 0, z: 2 * ONE }, dir: Vec3::unit_z().neg() };
    let rec = HitRecord {
        p: Vec3::zero(),
        normal: Vec3::unit_z(),
        material_id: 0,
        t: 2 * ONE,
        front_face: true,
    };

    let (attenuation, scattered) =
        mat.scatter(&ray, &rec, &mut rng).expect("a dielectric always scatters");
    assert_eq!(attenuation, Vec3::white());
    assert_eq!(scattered.dir, Vec3::unit_z().neg());
}

#[test]
fn test_metal_absorbs_into_surface() {
    let mut rng = rng_from_seed(3);
    let (ray, rec) = hit_on_unit_sphere();
    // full fuzz can push the reflection into the surface now and then; a zero
    // normal dot must come back as an absorption, never a scattered ray
    let mat = Material::Metal { albedo: Vec3::white(), fuzz: ONE };
    let mut absorbed = 0;
    let mut scattered_count = 0;
    for _ in 0..64 {
        match mat.scatter(&ray, &rec, &mut rng) {
            Some((_, scattered)) => {
                assert!(scattered.dir.dot(&rec.normal) > 0);
                scattered_count += 1;
            },
            None => absorbed += 1,
        }
    }
    assert_eq!(absorbed + scattered_count, 64);
}
