use rt1we::fixed::ONE;
use rt1we::geometry::{
    dot, lerp, make_color_from_u8, random_in_hemisphere, random_unit_vector, reflect, refract,
    Vec3,
};
use rt1we::rng::rng_from_seed;

fn close(a: i64, b: i64, tol: i64) -> bool {
    (a - b).abs() <= tol
}

fn vec_close(a: &Vec3, b: &Vec3, tol: i64) -> bool {
    close(a.x, b.x, tol) && close(a.y, b.y, tol) && close(a.z, b.z, tol)
}

#[test]
fn test_default_vec3_is_all_zeros() {
    let vec: Vec3 = Default::default();

    assert_eq!(vec, Vec3::zero());
}

#[test]
fn test_random_vector_has_values_in_0_1_range() {
    let mut rng = rng_from_seed(7);
    let rand_vec3 = Vec3::random(&mut rng);
    assert!(rand_vec3.x >= 0 && rand_vec3.x <= ONE);
    assert!(rand_vec3.y >= 0 && rand_vec3.y <= ONE);
    assert!(rand_vec3.z >= 0 && rand_vec3.z <= ONE);
}

#[test]
fn test_random_vec_in_hemisphere_always_with_unit_sphere() {
    let mut rng = rng_from_seed(7);
    let random_vec3 = random_in_hemisphere(&mut rng, &Vec3::unit_y());
    assert!(random_vec3.len() <= ONE);

    let random_vec3 = random_in_hemisphere(&mut rng, &Vec3::unit_y().neg());
    assert!(random_vec3.len() <= ONE);
}

#[test]
fn test_random_in_hemisphere_never_points_against_normal() {
    let mut rng = rng_from_seed(13);
    for _ in 0..32 {
        let n = Vec3 { x: ONE / 3, y: -ONE / 2, z: ONE / 4 };
        let v = random_in_hemisphere(&mut rng, &n);
        assert!(v.dot(&n) >= 0);
    }
}

#[test]
fn test_random_unit_vector_has_unit_length() {
    let mut rng = rng_from_seed(17);
    for _ in 0..32 {
        let v = random_unit_vector(&mut rng);
        assert!(close(v.len(), ONE, 24));
    }
}

#[test]
fn test_add() {
    let p = Vec3 { x: 1 * ONE, y: 2 * ONE, z: 3 * ONE };
    let q = Vec3 { x: 4 * ONE, y: 5 * ONE, z: 6 * ONE };

    let p_plus_q = p.add(&q);
    let expected = Vec3 { x: 5 * ONE, y: 7 * ONE, z: 9 * ONE };
    assert_eq!(expected, p_plus_q);
}

#[test]
fn test_add_ref() {
    let p = Vec3 { x: 1 * ONE, y: 2 * ONE, z: 3 * ONE };
    let q = Vec3 { x: 4 * ONE, y: 5 * ONE, z: 6 * ONE };

    let p_plus_q = (&p).add(&q);
    let expected = Vec3 { x: 5 * ONE, y: 7 * ONE, z: 9 * ONE };
    assert_eq!(expected, p_plus_q);
}

#[test]
fn test_add_operator_sums_vec_components() {
    let p = Vec3 { x: 1 * ONE, y: 2 * ONE, z: 3 * ONE };
    let q = Vec3 { x: 4 * ONE, y: 5 * ONE, z: 6 * ONE };

    let p_plus_q = p.add(&q);
    let expected = Vec3 { x: 5 * ONE, y: 7 * ONE, z: 9 * ONE };
    assert_eq!(expected, p_plus_q);
}

#[test]
fn test_sub_operator_sums_vec_components() {
    let p = Vec3 { x: 1 * ONE, y: 2 * ONE, z: 3 * ONE };
    let q = Vec3 { x: 4 * ONE, y: 5 * ONE, z: 6 * ONE };

    let p_minus_q = p.sub(&q);
    let expected = Vec3 { x: -3 * ONE, y: -3 * ONE, z: -3 * ONE };
    assert_eq!(expected, p_minus_q);
}

#[test]
fn test_mul() {
    let p = Vec3 { x: 1 * ONE, y: 2 * ONE, z: 3 * ONE };

    let p_times_2 = p.mul(2 * ONE);
    let expected = Vec3 { x: 2 * ONE, y: 4 * ONE, z: 6 * ONE };
    assert_eq!(expected, p_times_2);
}

#[test]
fn test_mul_vec_with_vec() {
    let p = Vec3 { x: 1 * ONE, y: 2 * ONE, z: 3 * ONE };
    let q = Vec3 { x: 4 * ONE, y: 5 * ONE, z: 6 * ONE };

    let p_times_q = p.mul_vec(&q);
    let expected = Vec3 { x: 4 * ONE, y: 10 * ONE, z: 18 * ONE };
    assert_eq!(expected, p_times_q);
}

#[test]
fn test_unary_neg() {
    let p = Vec3 { x: 1 * ONE, y: 2 * ONE, z: 3 * ONE };

    let minus_p = p.neg();
    let expected = Vec3 { x: -1 * ONE, y: -2 * ONE, z: -3 * ONE };
    assert_eq!(expected, minus_p);
}

#[test]
fn test_unary_neg_ref() {
    let p = Vec3 { x: 1 * ONE, y: 2 * ONE, z: 3 * ONE };

    let minus_p = (&p).neg();
    let expected = p.mul(-1 * ONE);
    assert_eq!(expected, minus_p);
}

#[test]
fn test_div() {
    let p = Vec3 { x: 1 * ONE, y: 2 * ONE, z: 3 * ONE };

    let p_div_2 = p.div(2 * ONE);
    let expected = Vec3 { x: ONE / 2, y: 1 * ONE, z: ONE + ONE / 2 };
    assert_eq!(expected, p_div_2);
}

#[test]
fn test_div_with_scalar() {
    let p = Vec3 { x: 1 * ONE, y: 2 * ONE, z: 3 * ONE };

    let p_div_2 = p.div(2 * ONE);
    let expected = Vec3 { x: ONE / 2, y: 1 * ONE, z: ONE + ONE / 2 };
    assert_eq!(expected, p_div_2);
}

#[test]
fn test_divref_with_scalar() {
    let p = Vec3 { x: 1 * ONE, y: 2 * ONE, z: 3 * ONE };

    let p_div_2 = (&p).div(2 * ONE);
    let expected = Vec3 { x: ONE / 2, y: 1 * ONE, z: ONE + ONE / 2 };
    assert_eq!(expected, p_div_2);
}

#[test]
fn test_dot_product() {
    let p = Vec3 { x: 1 * ONE, y: 2 * ONE, z: 3 * ONE };
    let q = Vec3 { x: 4 * ONE, y: 5 * ONE, z: 6 * ONE };

    let p_dot_q = p.dot(&q);
    let expected = 4 * ONE + 10 * ONE + 18 * ONE;
    assert_eq!(expected, p_dot_q);
}

#[test]
fn test_cross_product_x_cross_y_eq_z() {
    let p = Vec3::unit_x();
    let q = Vec3::unit_y();

    let p_cross_q = p.cross(&q);
    let expected = Vec3::unit_z();
    assert_eq!(expected, p_cross_q);
}

#[test]
fn test_cross_product() {
    let p = Vec3 { x: 1 * ONE, y: 2 * ONE, z: 3 * ONE };
    let q = Vec3 { x: 4 * ONE, y: 5 * ONE, z: 6 * ONE };

    let p_cross_q = p.cross(&q);
    let expected = Vec3 { x: -3 * ONE, y: 6 * ONE, z: -3 * ONE };
    assert_eq!(expected, p_cross_q);
}

#[test]
fn test_normed() {
    let p = Vec3 { x: 1 * ONE, y: 2 * ONE, z: 3 * ONE };
    let pn = p.normed();
    let sz = p.len();
    let expected = Vec3 { x: p.div(sz).x, y: p.div(sz).y, z: p.div(sz).z };
    assert_eq!(expected, pn);
    assert!(close(pn.len(), ONE, 4));
}

#[test]
fn test_normed_returns_a_normalized_vec() {
    let p = Vec3 { x: 1 * ONE, y: 2 * ONE, z: 3 * ONE };
    let pn = p.normed();
    assert_eq!(p.div(p.len()), pn);
    assert!(close(pn.len(), ONE, 4));
}

#[test]
fn test_norm_vec_in_place() {
    let mut p = Vec3 { x: 12 * ONE, y: 45 * ONE, z: 1 * ONE };
    assert!(p.len() > ONE);

    p.norm();
    assert!(close(p.len(), ONE, 4));
}

#[test]
fn test_expression() {
    let p = Vec3 { x: 1 * ONE, y: 2 * ONE, z: 3 * ONE };
    let q = Vec3 { x: 4 * ONE, y: 5 * ONE, z: 6 * ONE };

    let sum = p.add(&q);
    let diff = p.sub(&q);

    assert_eq!(Vec3 { x: 5 * ONE, y: 7 * ONE, z: 9 * ONE }, sum);
    assert_eq!(Vec3 { x: -3 * ONE, y: -3 * ONE, z: -3 * ONE }, diff);

    let expr = p.add(&q.sub(&p));
    assert_eq!(Vec3 { x: 4 * ONE, y: 5 * ONE, z: 6 * ONE }, expr);
}

#[test]
fn test_lerp() {
    let p = Vec3::zero();
    let q = Vec3 { x: 1 * ONE, y: 1 * ONE, z: 1 * ONE };
    let t = ONE / 2;

    let half = lerp(&p, &q, t);
    assert_eq!(Vec3 { x: ONE / 2, y: ONE / 2, z: ONE / 2 }, half);
}

#[test]
fn test_near_zero_returns_true_when_all_components_are_close_to_0() {
    let v = Vec3::zero();
    assert!(v.near_zero());
}

#[test]
fn test_near_zero_returns_false_when_any_components_is_not_close_to_0() {
    let v = Vec3 { x: ONE / 10, y: 0, z: 0 };
    assert!(!v.near_zero());
}

#[test]
fn test_reflect() {
    let v = Vec3 { x: 1 * ONE, y: -1 * ONE, z: 0 }.normed();
    let n = Vec3::unit_y();

    let reflected = reflect(&v, &n);
    let expected = Vec3 { x: 1 * ONE, y: 1 * ONE, z: 0 }.normed();
    assert!(vec_close(&expected, &reflected, 2));
}

#[test]
fn test_refract() {
    let uv = Vec3 { x: 1 * ONE, y: 1 * ONE, z: 0 };
    let n = Vec3 { x: -1 * ONE, y: 0, z: 0 };
    let etai_over_etat = ONE;
    let expected = Vec3 { x: 0, y: 1 * ONE, z: 0 };
    let actual = refract(&uv, &n, etai_over_etat);
    assert_eq!(actual, expected);
}

#[test]
fn test_refract_with_air_refraction_coefficient_returns_same_vector() {
    let v = Vec3 { x: 1 * ONE, y: -1 * ONE, z: 0 }.normed();
    let n = Vec3::unit_y();

    let refracted = refract(&v, &n, ONE);
    let expected = Vec3 { x: 1 * ONE, y: -1 * ONE, z: 0 }.normed();
    assert!(vec_close(&expected, &refracted, 4));
}

#[test]
fn test_refract_with_glass_refraction_coefficient_returns_refracted_vector() {
    let v = Vec3 { x: 1 * ONE, y: -1 * ONE, z: 0 }.normed();
    let n = Vec3::unit_y();

    let refracted = refract(&v, &n, 1_300_000);
    let expected = Vec3 { x: 919_238, y: -393_700, z: 0 };
    assert!(vec_close(&expected, &refracted, 16));
}

#[test]
fn test_make_color_from_u8_normalizes_values_in_0_1_range() {
    let [r, g, b] = [127u8, 127u8, 127u8];
    let color = make_color_from_u8(r, g, b);
    assert_eq!(color.x, 498_039);
    assert_eq!(color.y, 498_039);
    assert_eq!(color.z, 498_039);
}

#[test]
fn test_random_draws_vary() {
    let mut rng = rng_from_seed(11);
    let mut values = Vec::new();
    for _ in 0..64 {
        values.push(Vec3::random(&mut rng).x);
    }
    let first = values[0];
    assert!(values.iter().any(|v| *v != first));
}

#[test]
fn test_dot_free_function_matches_method() {
    let p = Vec3 { x: 1 * ONE, y: 2 * ONE, z: 3 * ONE };
    let q = Vec3 { x: 4 * ONE, y: 5 * ONE, z: 6 * ONE };
    assert_eq!(dot(&p, &q), p.dot(&q));
}
