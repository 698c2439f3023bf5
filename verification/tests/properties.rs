//! Concrete scenarios for the comparison properties: reflexivity,
//! symmetry, tolerance monotonicity, componentwise conjunction, NaN
//! handling, and step-bound edge behaviour.

use vec_approx::types::{Mat4, Vec2, Vec3, Vec4, DEFAULT_EPSILON_BITS, DEFAULT_MAX_ULPS};

fn b(x: f32) -> u32 {
    x.to_bits()
}

fn v3(x: f32, y: f32, z: f32) -> Vec3 {
    Vec3 { x: b(x), y: b(y), z: b(z) }
}

fn v4(x: f32, y: f32, z: f32, w: f32) -> Vec4 {
    Vec4 { x: b(x), y: b(y), z: b(z), w: b(w) }
}

#[test]
fn test_reflexivity() {
    let v = v3(1.0, -2.5, 3.0e-20);
    assert!(v.abs_diff_eq(&v, b(0.0)));
    assert!(v.abs_diff_eq(&v, b(1e-30)));
    assert!(v.abs_diff_eq(&v, DEFAULT_EPSILON_BITS));
    assert!(v.ulps_eq(&v, b(0.0), 0));
    assert!(v.ulps_eq(&v, DEFAULT_EPSILON_BITS, DEFAULT_MAX_ULPS));
    // but not under a negative or NaN tolerance
    assert!(!v.abs_diff_eq(&v, b(-1.0)));
    assert!(!v.abs_diff_eq(&v, b(f32::NAN)));
}

#[test]
fn test_symmetry() {
    let a = v4(1.0, 2.0, 3.0, 4.0);
    let c = v4(1.0000001, 2.0, 3.0, 4.0);
    let far = v4(1.5, 2.0, 3.0, 4.0);
    let e = DEFAULT_EPSILON_BITS;
    assert_eq!(a.abs_diff_eq(&c, e), c.abs_diff_eq(&a, e));
    assert_eq!(a.abs_diff_eq(&far, e), far.abs_diff_eq(&a, e));
    assert_eq!(a.ulps_eq(&c, e, 4), c.ulps_eq(&a, e, 4));
    assert_eq!(a.ulps_eq(&far, e, 4), far.ulps_eq(&a, e, 4));
    assert!(a.abs_diff_eq(&c, e) && !a.abs_diff_eq(&far, e));
}

#[test]
fn test_monotonicity_in_tolerance() {
    let a = Vec2 { x: b(1.0), y: b(-1.0) };
    let c = Vec2 { x: b(1.0000005), y: b(-1.0) };
    // |difference| is about 4.8e-7
    assert!(!a.abs_diff_eq(&c, b(1e-7)));
    assert!(a.abs_diff_eq(&c, b(1e-6)));
    assert!(a.abs_diff_eq(&c, b(1e-3)));
    assert!(a.abs_diff_eq(&c, b(f32::INFINITY)));
    assert!(!a.ulps_eq(&c, b(0.0), 3));
    assert!(a.ulps_eq(&c, b(0.0), 4));
    assert!(a.ulps_eq(&c, b(0.0), 1000));
}

#[test]
fn test_componentwise_conjunction() {
    let a = v4(1.0, 2.0, 3.0, 4.0);
    let e = DEFAULT_EPSILON_BITS;
    assert!(a.abs_diff_eq(&a, e));
    // perturbing exactly one component beyond the tolerance flips the
    // composite result
    let perturbed = [
        v4(2.0, 2.0, 3.0, 4.0),
        v4(1.0, 3.0, 3.0, 4.0),
        v4(1.0, 2.0, 4.0, 4.0),
        v4(1.0, 2.0, 3.0, 5.0),
    ];
    for (k, p) in perturbed.iter().enumerate() {
        assert!(!a.abs_diff_eq(p, e), "component {k}");
        assert!(!a.ulps_eq(p, e, DEFAULT_MAX_ULPS), "component {k}");
    }
}

#[test]
fn test_nan_is_never_equal() {
    let v = v3(1.0, f32::NAN, 3.0);
    let w = v3(1.0, 2.0, 3.0);
    let e = DEFAULT_EPSILON_BITS;
    assert!(!v.abs_diff_eq(&v, e));
    assert!(!v.ulps_eq(&v, e, DEFAULT_MAX_ULPS));
    assert!(!v.abs_diff_eq(&w, e));
    assert!(!w.abs_diff_eq(&v, e));
    assert!(!v.ulps_eq(&w, e, DEFAULT_MAX_ULPS));
    assert!(!w.ulps_eq(&v, e, DEFAULT_MAX_ULPS));
    assert!(!v.abs_diff_eq(&v, b(f32::INFINITY)));
}

#[test]
fn test_ulps_perturbation_just_past_bound() {
    // moving one component by exactly max_ulps + 1 representable steps,
    // with the absolute fallback disabled, must break the comparison
    let base = 1.5f32;
    let m = DEFAULT_MAX_ULPS;
    let within = f32::from_bits(base.to_bits() + m);
    let past = f32::from_bits(base.to_bits() + m + 1);
    let a = Vec2 { x: b(base), y: b(base) };
    let ok = Vec2 { x: b(base), y: b(within) };
    let bad = Vec2 { x: b(base), y: b(past) };
    assert!(a.ulps_eq(&ok, b(0.0), m));
    assert!(!a.ulps_eq(&bad, b(0.0), m));
}

#[test]
fn test_mat4_identity_ulps_default() {
    let one = b(1.0);
    let zero = b(0.0);
    let id = Mat4 {
        x_axis: Vec4 { x: one, y: zero, z: zero, w: zero },
        y_axis: Vec4 { x: zero, y: one, z: zero, w: zero },
        z_axis: Vec4 { x: zero, y: zero, z: one, w: zero },
        w_axis: Vec4 { x: zero, y: zero, z: zero, w: one },
    };
    assert!(id.ulps_eq(&id, Mat4::default_epsilon(), Mat4::default_max_ulps()));
    assert!(id.abs_diff_eq(&id, Mat4::default_epsilon()));
}
