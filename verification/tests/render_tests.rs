use rt1we::fixed::ONE;
use rt1we::camera::Camera;
use rt1we::geometry::Vec3;
use rt1we::render::{interpolate, ray_color, ray_color_2, render};
use rt1we::rng::rng_from_seed;
use rt1we::scene::{HittableList, Sphere};
use rt1we::trig::{deg2rad, rad2deg, tan, PI};
use rt1we::image::ImageRGBA;

fn close(a: i64, b: i64, tol: i64) -> bool {
    (a - b).abs() <= tol
}

#[test]
fn test_deg_rad_conversions() {
    let angle = 30 * ONE;

    let angle_r = deg2rad(angle);
    assert!(close(angle_r, PI / 6, 4));

    let angle_d = rad2deg(angle_r);
    assert!(close(angle_d, angle, 64));
}

#[test]
fn test_tan_of_45_degrees() {
    let t = tan(deg2rad(45 * ONE));
    assert!(close(t, ONE, 64));
}

#[test]
fn test_linear_trajectory_interpolation() {
    let start = Vec3::zero();
    let mid = Vec3 { x: 0, y: 0, z: 1 * ONE };
    let end = Vec3 { x: 0, y: 1 * ONE, z: 1 * ONE };

    let points = vec![start, mid, end];
    let trajectory = interpolate(&points, 10);

    assert_eq!(trajectory.len(), 22);
    assert_eq!(trajectory[0], start);
    assert_eq!(trajectory[1], Vec3 { x: 0, y: 0, z: ONE / 10 });
    assert_eq!(trajectory[2], Vec3 { x: 0, y: 0, z: 2 * ONE / 10 });
    assert_eq!(trajectory[3], Vec3 { x: 0, y: 0, z: 3 * ONE / 10 });
    assert_eq!(trajectory[4], Vec3 { x: 0, y: 0, z: 4 * ONE / 10 });
    assert_eq!(trajectory[5], Vec3 { x: 0, y: 0, z: 5 * ONE / 10 });
    assert_eq!(trajectory[6], Vec3 { x: 0, y: 0, z: 6 * ONE / 10 });
    assert_eq!(trajectory[7], Vec3 { x: 0, y: 0, z: 7 * ONE / 10 });
    assert_eq!(trajectory[8], Vec3 { x: 0, y: 0, z: 8 * ONE / 10 });
    assert_eq!(trajectory[9], Vec3 { x: 0, y: 0, z: 9 * ONE / 10 });
    assert_eq!(trajectory[10], mid);
    assert_eq!(trajectory[11], Vec3 { x: 0, y: 0, z: 1 * ONE });
    assert_eq!(trajectory[12], Vec3 { x: 0, y: ONE / 10, z: 1 * ONE });
    assert_eq!(trajectory[13], Vec3 { x: 0, y: 2 * ONE / 10, z: 1 * ONE });
    assert_eq!(trajectory[14], Vec3 { x: 0, y: 3 * ONE / 10, z: 1 * ONE });
    assert_eq!(trajectory[15], Vec3 { x: 0, y: 4 * ONE / 10, z: 1 * ONE });
    assert_eq!(trajectory[16], Vec3 { x: 0, y: 5 * ONE / 10, z: 1 * ONE });
    assert_eq!(trajectory[17], Vec3 { x: 0, y: 6 * ONE / 10, z: 1 * ONE });
    assert_eq!(trajectory[18], Vec3 { x: 0, y: 7 * ONE / 10, z: 1 * ONE });
    assert_eq!(trajectory[19], Vec3 { x: 0, y: 8 * ONE / 10, z: 1 * ONE });
    assert_eq!(trajectory[20], Vec3 { x: 0, y: 9 * ONE / 10, z: 1 * ONE });
    assert_eq!(trajectory[21], end);
}

#[test]
fn test_nominal_render() {
    let mut rng = rng_from_seed(42);
    let pos = Vec3 { x: -2 * ONE, y: 2 * ONE, z: 1 * ONE };
    let im = render(16, 9, 5, 1, &pos, &mut rng);
    let default_img = ImageRGBA::new(16, 9);

    assert_eq!(im.width, 16);
    assert_eq!(im.height, 9);

    let mut diff_count = 0usize;
    for (p1, p2) in im.pixels.iter().zip(default_img.pixels.iter()) {
        if p1 != p2 {
            diff_count += 1;
        }
    }
    assert!(diff_count * 2 > im.pixels.len());
}

#[test]
fn test_single_sphere_scene_lights_most_pixels() {
    // one sphere ahead of a camera at the origin: more than half the pixels
    // differ from the untouched dark-gray buffer
    let mut rng = rng_from_seed(5);
    let pos = Vec3::zero();
    let im = render(16, 9, 5, 1, &pos, &mut rng);
    let blank = ImageRGBA::new(16, 9);

    let mut diff_count = 0usize;
    for j in 0..9usize {
        for i in 0..16usize {
            if im.at(i, j) != blank.at(i, j) {
                diff_count += 1;
            }
        }
    }
    assert!(diff_count * 2 > 16 * 9);
}

#[test]
fn test_render_depth_zero_all_black() {
    let mut rng = rng_from_seed(9);
    let pos = Vec3::zero();
    let im = render(8, 6, 0, 2, &pos, &mut rng);
    for j in 0..6usize {
        for i in 0..8usize {
            assert_eq!(im.at(i, j), (0, 0, 0, 255));
        }
    }
}

#[test]
fn test_ray_color_depth_zero_black() {
    let mut rng = rng_from_seed(9);
    let mut world = HittableList::new();
    world.add(&Sphere { center: Vec3 { x: 0, y: 0, z: -1 * ONE }, radius: ONE / 2,
        material_id: 0 });
    let materials = vec![
        rt1we::material::Material::Lambertian {
            albedo: Vec3 { x: 500_000, y: 500_000, z: 500_000 },
        },
    ];
    let ray = rt1we::ray::Ray { orig: Vec3::zero(), dir: Vec3::unit_z().neg() };
    let c = ray_color_2(&ray, &world, 0, &materials, &mut rng);
    assert_eq!(c, Vec3::zero());
}

#[test]
fn test_render_deterministic_with_seed() {
    let pos = Vec3 { x: -2 * ONE, y: 2 * ONE, z: 1 * ONE };
    let mut rng1 = rng_from_seed(1234);
    let im1 = render(12, 8, 4, 2, &pos, &mut rng1);
    let mut rng2 = rng_from_seed(1234);
    let im2 = render(12, 8, 4, 2, &pos, &mut rng2);
    assert_eq!(im1.pixels, im2.pixels);
}

#[test]
fn test_probe_ray_color_sky_gradient() {
    // a ray pointing straight up misses the probe sphere and lands in the sky
    let ray = rt1we::ray::Ray { orig: Vec3::zero(), dir: Vec3::unit_y() };
    let c = ray_color(&ray);
    // at the top of the gradient the color is the sky blue (0.5, 0.7, 1.0)
    assert!(close(c.x, ONE / 2, 8));
    assert!(close(c.y, 700_000, 8));
    assert!(close(c.z, ONE, 8));
}

#[test]
fn test_camera_looks_down_negative_z() {
    let cam = Camera::new(
        Vec3::zero(),
        Vec3 { x: 0, y: 0, z: -1 * ONE },
        Vec3::unit_y(),
        90 * ONE,
        2 * ONE,
    );
    let r = cam.get_ray(ONE / 2, ONE / 2);
    assert_eq!(r.orig, Vec3::zero());
    assert!(r.dir.z < 0);
    // the centered ray barely strays from the axis
    assert!(close(r.dir.x, 0, 64));
    assert!(close(r.dir.y, 0, 64));
}
