use rustros_tf::msg::{Quaternion, Transform, Vector3};
use rustros_tf::transforms::{
    chain_transforms, compose, interpolate, invert_transform,
};

fn vector(x: f64, y: f64, z: f64) -> Vector3 {
    Vector3 { x: x.to_bits(), y: y.to_bits(), z: z.to_bits() }
}

fn quaternion(x: f64, y: f64, z: f64, w: f64) -> Quaternion {
    Quaternion { x: x.to_bits(), y: y.to_bits(), z: z.to_bits(), w: w.to_bits() }
}

fn transform(tx: f64, ty: f64, tz: f64, qx: f64, qy: f64, qz: f64, qw: f64) -> Transform {
    Transform {
        translation: vector(tx, ty, tz),
        rotation: quaternion(qx, qy, qz, qw),
    }
}

fn assert_close(actual: u64, expected: f64, what: &str) {
    let actual = f64::from_bits(actual);
    assert!(
        (actual - expected).abs() < 1e-9,
        "{}: got {}, expected {}",
        what,
        actual,
        expected
    );
}

fn assert_transform_close(actual: Transform, expected: Transform) {
    assert_close(actual.translation.x, f64::from_bits(expected.translation.x), "translation x");
    assert_close(actual.translation.y, f64::from_bits(expected.translation.y), "translation y");
    assert_close(actual.translation.z, f64::from_bits(expected.translation.z), "translation z");
    assert_close(actual.rotation.x, f64::from_bits(expected.rotation.x), "rotation x");
    assert_close(actual.rotation.y, f64::from_bits(expected.rotation.y), "rotation y");
    assert_close(actual.rotation.z, f64::from_bits(expected.rotation.z), "rotation z");
    assert_close(actual.rotation.w, f64::from_bits(expected.rotation.w), "rotation w");
}

#[test]
fn test_basic_translation_chaining() {
    let tf1 = transform(1.0, 1.0, 0.0, 0.0, 0.0, 0.0, 1.0);
    let expected_tf = transform(2.0, 2.0, 0.0, 0.0, 0.0, 0.0, 1.0);
    let transform_chain = vec![tf1, tf1];
    let res = chain_transforms(&transform_chain);
    assert_transform_close(res, expected_tf);
}

#[test]
fn test_basic_interpolation() {
    let tf1 = transform(1.0, 1.0, 0.0, 0.0, 0.0, 0.0, 1.0);
    let tf2 = transform(2.0, 2.0, 0.0, 0.0, 0.0, 0.0, 1.0);
    let expected = transform(1.5, 1.5, 0.0, 0.0, 0.0, 0.0, 1.0);
    assert_transform_close(interpolate(tf1, tf2, 1, 2), expected);
}

#[test]
fn test_invert_twice_round_trips() {
    let half = std::f64::consts::FRAC_1_SQRT_2;
    let tf = transform(1.0, -2.5, 3.25, 0.0, 0.0, half, half);
    let back = invert_transform(invert_transform(tf));
    assert_transform_close(back, tf);
}

#[test]
fn test_invert_rotates_translation() {
    // A quarter turn about z carrying a unit x translation: the inverse
    // carries the translation to (0, 1, 0) up to sign.
    let half = std::f64::consts::FRAC_1_SQRT_2;
    let tf = transform(1.0, 0.0, 0.0, 0.0, 0.0, half, half);
    let inv = invert_transform(tf);
    assert_close(inv.translation.x, 0.0, "inverse translation x");
    assert_close(inv.translation.y, 1.0, "inverse translation y");
    assert_close(inv.translation.z, 0.0, "inverse translation z");
}

#[test]
fn test_chain_identities() {
    let half = std::f64::consts::FRAC_1_SQRT_2;
    let tf = transform(4.0, 5.0, -6.0, 0.0, 0.0, half, half);

    // An empty chain is exactly the identity.
    let empty: Vec<Transform> = Vec::new();
    let id = chain_transforms(&empty);
    assert_transform_close(id, transform(0.0, 0.0, 0.0, 0.0, 0.0, 0.0, 1.0));

    // A chain of one transform is exactly that transform.
    assert_eq!(chain_transforms(&vec![tf]), tf);

    // A transform chained with its inverse is the identity within 1e-9.
    let round = chain_transforms(&vec![tf, invert_transform(tf)]);
    assert_transform_close(round, transform(0.0, 0.0, 0.0, 0.0, 0.0, 0.0, 1.0));
}

#[test]
fn test_interpolation_endpoints_exact() {
    let half = std::f64::consts::FRAC_1_SQRT_2;
    let a = transform(1.0, 2.0, 3.0, 0.0, 0.0, half, half);
    let b = transform(-4.0, 0.5, 9.0, 0.0, 0.0, 0.0, 1.0);
    assert_eq!(interpolate(a, b, 0, 5), a);
    assert_eq!(interpolate(a, b, 5, 5), b);
}

#[test]
fn test_compose_rotates_second_translation() {
    // Composing a quarter turn about z with a unit x step moves the step onto y.
    let half = std::f64::consts::FRAC_1_SQRT_2;
    let turn = transform(0.0, 0.0, 0.0, 0.0, 0.0, half, half);
    let step = transform(1.0, 0.0, 0.0, 0.0, 0.0, 0.0, 1.0);
    let composed = compose(&turn, &step);
    assert_close(composed.translation.x, 0.0, "composed translation x");
    assert_close(composed.translation.y, 1.0, "composed translation y");
    assert_close(composed.translation.z, 0.0, "composed translation z");

    // Two quarter turns make a half turn.
    let double = compose(&turn, &turn);
    assert_close(double.rotation.z, 1.0, "composed rotation z");
    assert_close(double.rotation.w, 0.0, "composed rotation w");
}

#[test]
fn test_interpolation_halfway_rotation() {
    // Halfway between no rotation and a quarter turn about z is an eighth turn.
    let half = std::f64::consts::FRAC_1_SQRT_2;
    let a = transform(0.0, 0.0, 0.0, 0.0, 0.0, 0.0, 1.0);
    let b = transform(2.0, 0.0, 0.0, 0.0, 0.0, half, half);
    let mid = interpolate(a, b, 1, 2);
    let eighth = std::f64::consts::FRAC_PI_8;
    assert_close(mid.translation.x, 1.0, "midpoint translation x");
    assert_close(mid.rotation.z, eighth.sin(), "midpoint rotation z");
    assert_close(mid.rotation.w, eighth.cos(), "midpoint rotation w");
}

#[test]
fn test_interpolation_weight_follows_ratio() {
    // The translation moves by the ratio of elapsed time over the bracket.
    let a = transform(0.0, 0.0, 0.0, 0.0, 0.0, 0.0, 1.0);
    let b = transform(10.0, 0.0, 0.0, 0.0, 0.0, 0.0, 1.0);
    let part = interpolate(a, b, 3, 10);
    assert_close(part.translation.x, 3.0, "three tenths of the way");
}

#[test]
fn test_normalizes_rotation_before_use() {
    // A non-unit quaternion (twice the identity) acts as the identity once
    // normalized: composing with it must not scale anything.
    let doubled = transform(0.0, 0.0, 0.0, 0.0, 0.0, 0.0, 2.0);
    let step = transform(1.0, 2.0, 3.0, 0.0, 0.0, 0.0, 1.0);
    let composed = compose(&doubled, &step);
    assert_close(composed.translation.x, 1.0, "translation x unscaled");
    assert_close(composed.translation.y, 2.0, "translation y unscaled");
    assert_close(composed.translation.z, 3.0, "translation z unscaled");
    assert_close(composed.rotation.w, 1.0, "rotation renormalized");
}
