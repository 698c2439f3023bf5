//! 4x4 matrix scenarios: construction, accessors, rotation, scale,
//! translation, multiplication and a look-at view transform, with the
//! results checked through the library's approximate comparisons.
//!
//! The matrix arithmetic itself is plain single-precision test helper
//! code; the library only judges the outcomes.

use vec_approx::types::{Mat4, Vec3, Vec4};

type M = [[f32; 4]; 4];

const IDENTITY: M = [
    [1.0, 0.0, 0.0, 0.0],
    [0.0, 1.0, 0.0, 0.0],
    [0.0, 0.0, 1.0, 0.0],
    [0.0, 0.0, 0.0, 1.0],
];

const MATRIX: M = [
    [1.0, 2.0, 3.0, 4.0],
    [5.0, 6.0, 7.0, 8.0],
    [9.0, 10.0, 11.0, 12.0],
    [13.0, 14.0, 15.0, 16.0],
];

const ZERO: M = [[0.0; 4]; 4];

fn b(x: f32) -> u32 {
    x.to_bits()
}

fn v4bits(v: [f32; 4]) -> Vec4 {
    Vec4 { x: b(v[0]), y: b(v[1]), z: b(v[2]), w: b(v[3]) }
}

fn v3bits(v: [f32; 3]) -> Vec3 {
    Vec3 { x: b(v[0]), y: b(v[1]), z: b(v[2]) }
}

fn m4bits(m: M) -> Mat4 {
    Mat4 {
        x_axis: v4bits(m[0]),
        y_axis: v4bits(m[1]),
        z_axis: v4bits(m[2]),
        w_axis: v4bits(m[3]),
    }
}

fn assert_mat_ulps_eq(a: M, c: M) {
    let x = m4bits(a);
    let y = m4bits(c);
    assert!(
        x.ulps_eq(&y, Mat4::default_epsilon(), Mat4::default_max_ulps()),
        "matrices differ: {a:?} vs {c:?}"
    );
}

fn assert_v4_ulps_eq(a: [f32; 4], c: [f32; 4]) {
    let x = v4bits(a);
    let y = v4bits(c);
    assert!(
        x.ulps_eq(&y, Vec4::default_epsilon(), Vec4::default_max_ulps()),
        "vectors differ: {a:?} vs {c:?}"
    );
}

fn assert_v3_ulps_eq(a: [f32; 3], c: [f32; 3]) {
    let x = v3bits(a);
    let y = v3bits(c);
    assert!(
        x.ulps_eq(&y, Vec3::default_epsilon(), Vec3::default_max_ulps()),
        "vectors differ: {a:?} vs {c:?}"
    );
}

fn deg(degrees: f32) -> f32 {
    degrees.to_radians()
}

fn vec4_mul_mat(v: [f32; 4], m: M) -> [f32; 4] {
    let mut r = [0.0f32; 4];
    for j in 0..4 {
        r[j] = v[0] * m[0][j] + v[1] * m[1][j] + v[2] * m[2][j] + v[3] * m[3][j];
    }
    r
}

fn mat_mul(a: M, c: M) -> M {
    [
        vec4_mul_mat(a[0], c),
        vec4_mul_mat(a[1], c),
        vec4_mul_mat(a[2], c),
        vec4_mul_mat(a[3], c),
    ]
}

fn transform_point3(m: M, p: [f32; 3]) -> [f32; 3] {
    let r = vec4_mul_mat([p[0], p[1], p[2], 1.0], m);
    [r[0], r[1], r[2]]
}

fn transform_normal3(m: M, p: [f32; 3]) -> [f32; 3] {
    let r = vec4_mul_mat([p[0], p[1], p[2], 0.0], m);
    [r[0], r[1], r[2]]
}

fn from_translation(t: [f32; 3]) -> M {
    [
        [1.0, 0.0, 0.0, 0.0],
        [0.0, 1.0, 0.0, 0.0],
        [0.0, 0.0, 1.0, 0.0],
        [t[0], t[1], t[2], 1.0],
    ]
}

fn from_scale(s: [f32; 3]) -> M {
    [
        [s[0], 0.0, 0.0, 0.0],
        [0.0, s[1], 0.0, 0.0],
        [0.0, 0.0, s[2], 0.0],
        [0.0, 0.0, 0.0, 1.0],
    ]
}

fn from_rotation_x(angle: f32) -> M {
    let (s, c) = angle.sin_cos();
    [
        [1.0, 0.0, 0.0, 0.0],
        [0.0, c, s, 0.0],
        [0.0, -s, c, 0.0],
        [0.0, 0.0, 0.0, 1.0],
    ]
}

fn from_rotation_y(angle: f32) -> M {
    let (s, c) = angle.sin_cos();
    [
        [c, 0.0, -s, 0.0],
        [0.0, 1.0, 0.0, 0.0],
        [s, 0.0, c, 0.0],
        [0.0, 0.0, 0.0, 1.0],
    ]
}

fn from_rotation_z(angle: f32) -> M {
    let (s, c) = angle.sin_cos();
    [
        [c, s, 0.0, 0.0],
        [-s, c, 0.0, 0.0],
        [0.0, 0.0, 1.0, 0.0],
        [0.0, 0.0, 0.0, 1.0],
    ]
}

fn from_axis_angle(axis: [f32; 3], angle: f32) -> M {
    let (s, c) = angle.sin_cos();
    let (x, y, z) = (axis[0], axis[1], axis[2]);
    let omc = 1.0 - c;
    [
        [x * x * omc + c, x * y * omc + z * s, x * z * omc - y * s, 0.0],
        [x * y * omc - z * s, y * y * omc + c, y * z * omc + x * s, 0.0],
        [x * z * omc + y * s, y * z * omc - x * s, z * z * omc + c, 0.0],
        [0.0, 0.0, 0.0, 1.0],
    ]
}

fn sub3(a: [f32; 3], c: [f32; 3]) -> [f32; 3] {
    [a[0] - c[0], a[1] - c[1], a[2] - c[2]]
}

fn dot3(a: [f32; 3], c: [f32; 3]) -> f32 {
    a[0] * c[0] + a[1] * c[1] + a[2] * c[2]
}

fn cross3(a: [f32; 3], c: [f32; 3]) -> [f32; 3] {
    [
        a[1] * c[2] - a[2] * c[1],
        a[2] * c[0] - a[0] * c[2],
        a[0] * c[1] - a[1] * c[0],
    ]
}

fn normalize3(a: [f32; 3]) -> [f32; 3] {
    let n = dot3(a, a).sqrt();
    [a[0] / n, a[1] / n, a[2] / n]
}

fn look_at(eye: [f32; 3], center: [f32; 3], up: [f32; 3]) -> M {
    let f = normalize3(sub3(center, eye));
    let s = normalize3(cross3(f, up));
    let u = cross3(s, f);
    [
        [s[0], u[0], -f[0], 0.0],
        [s[1], u[1], -f[1], 0.0],
        [s[2], u[2], -f[2], 0.0],
        [-dot3(s, eye), -dot3(u, eye), dot3(f, eye), 1.0],
    ]
}

#[test]
fn test_mat4_identity() {
    let identity = IDENTITY;
    assert_eq!(m4bits(IDENTITY), m4bits(identity));
    assert_eq!(m4bits(identity), m4bits(mat_mul(identity, identity)));
    assert!(m4bits(identity).ulps_eq(
        &m4bits(identity),
        Mat4::default_epsilon(),
        Mat4::default_max_ulps(),
    ));
}

#[test]
fn test_mat4_zero() {
    let z = [[0.0f32; 4]; 4];
    assert_eq!(m4bits(ZERO), m4bits(z));
}

#[test]
fn test_mat4_accessors() {
    let mut m = m4bits(ZERO);
    m.x_axis = v4bits([1.0, 2.0, 3.0, 4.0]);
    m.y_axis = v4bits([5.0, 6.0, 7.0, 8.0]);
    m.z_axis = v4bits([9.0, 10.0, 11.0, 12.0]);
    m.w_axis = v4bits([13.0, 14.0, 15.0, 16.0]);
    assert_eq!(m4bits(MATRIX), m);
    assert_eq!(v4bits([1.0, 2.0, 3.0, 4.0]), m.x_axis);
    assert_eq!(v4bits([5.0, 6.0, 7.0, 8.0]), m.y_axis);
    assert_eq!(v4bits([9.0, 10.0, 11.0, 12.0]), m.z_axis);
    assert_eq!(v4bits([13.0, 14.0, 15.0, 16.0]), m.w_axis);
}

#[test]
fn test_mat4_from_axes() {
    let a: M = [
        [1.0, 2.0, 3.0, 4.0],
        [5.0, 6.0, 7.0, 8.0],
        [9.0, 10.0, 11.0, 12.0],
        [13.0, 14.0, 15.0, 16.0],
    ];
    assert_eq!(m4bits(MATRIX), m4bits(a));
    let d = Mat4 {
        x_axis: v4bits([1.0, 2.0, 3.0, 4.0]),
        y_axis: v4bits([5.0, 6.0, 7.0, 8.0]),
        z_axis: v4bits([9.0, 10.0, 11.0, 12.0]),
        w_axis: v4bits([13.0, 14.0, 15.0, 16.0]),
    };
    assert_eq!(m4bits(a), d);
}

#[test]
fn test_mat4_translation() {
    let translate = from_translation([1.0, 2.0, 3.0]);
    let expected: M = [
        [1.0, 0.0, 0.0, 0.0],
        [0.0, 1.0, 0.0, 0.0],
        [0.0, 0.0, 1.0, 0.0],
        [1.0, 2.0, 3.0, 1.0],
    ];
    assert_eq!(m4bits(expected), m4bits(translate));
}

#[test]
fn test_from_rotation() {
    let rot_x1 = from_rotation_x(deg(180.0));
    let rot_x2 = from_axis_angle([1.0, 0.0, 0.0], deg(180.0));
    assert_mat_ulps_eq(rot_x1, rot_x2);
    let rot_y1 = from_rotation_y(deg(180.0));
    let rot_y2 = from_axis_angle([0.0, 1.0, 0.0], deg(180.0));
    assert_mat_ulps_eq(rot_y1, rot_y2);
    let rot_z1 = from_rotation_z(deg(180.0));
    let rot_z2 = from_axis_angle([0.0, 0.0, 1.0], deg(180.0));
    assert_mat_ulps_eq(rot_z1, rot_z2);
}

#[test]
fn test_mat4_mul() {
    let mat_a = from_axis_angle([0.0, 0.0, 1.0], deg(90.0));
    let result3 = transform_normal3(mat_a, [0.0, 1.0, 0.0]);
    assert_v3_ulps_eq([-1.0, 0.0, 0.0], result3);
    let result4 = vec4_mul_mat([0.0, 1.0, 0.0, 0.0], mat_a);
    assert_v4_ulps_eq([-1.0, 0.0, 0.0, 0.0], result4);
}

#[test]
fn test_from_scale() {
    let m = from_scale([2.0, 4.0, 8.0]);
    assert_v3_ulps_eq(transform_point3(m, [1.0, 1.0, 1.0]), [2.0, 4.0, 8.0]);
    assert_v4_ulps_eq([2.0, 0.0, 0.0, 0.0], m[0]);
    assert_v4_ulps_eq([0.0, 4.0, 0.0, 0.0], m[1]);
    assert_v4_ulps_eq([0.0, 0.0, 8.0, 0.0], m[2]);
    assert_v4_ulps_eq([0.0, 0.0, 0.0, 1.0], m[3]);
}

#[test]
fn test_mat4_look_at() {
    let eye = [0.0, 0.0, -5.0];
    let center = [0.0, 0.0, 0.0];
    let up = [1.0, 0.0, 0.0];
    let m = look_at(eye, center, up);
    let point = [1.0, 0.0, 0.0];
    let view_point = [0.0, 1.0, -5.0];
    assert_v3_ulps_eq(transform_point3(m, point), view_point);
}
