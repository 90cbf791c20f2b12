//! Rigid-body transform algebra: inversion, composition, chaining and
//! interpolation.
//!
//! The numeric work happens in a linear-algebra library behind a handful of
//! trusted calls; each call's result is given a name (an uninterpreted spec
//! function over the bit patterns of its arguments), and everything built on
//! top of the calls — chaining, interpolation endpoints, inversion shape —
//! is verified against those names.

use vstd::prelude::*;

use crate::msg::{
    identity_transform, zero_vector3, Quaternion, Transform, Vector3,
};
use nalgebra::Isometry3;
use nalgebra::Point3;
use nalgebra::Quaternion as NaQuaternion;
use nalgebra::Translation3;
use nalgebra::UnitQuaternion;
use nalgebra::Vector3 as NaVector3;

verus! {

/// Bit pattern of 1e-9: the threshold under which spherical interpolation is
/// considered ill-conditioned and falls back to the nearer endpoint's rotation.
pub const SLERP_EPSILON_BITS: u64 = 0x3e112e0be826d695;

/// The product of two rotations: first normalize each quaternion, then multiply.
pub uninterp spec fn quat_mul_of(a: Quaternion, b: Quaternion) -> Quaternion;

/// The inverse of a rotation: normalize the quaternion, then conjugate.
pub uninterp spec fn quat_inv_of(q: Quaternion) -> Quaternion;

/// A quaternion scaled to unit length.
pub uninterp spec fn quat_norm_of(q: Quaternion) -> Quaternion;

/// A point taken through a rigid-body transform: rotate it by the transform's
/// (normalized) rotation, then add the transform's translation.
pub uninterp spec fn iso_apply_of(t: Transform, v: Vector3) -> Vector3;

/// Spherical-linear interpolation between two (normalized) rotations with
/// parameter `num / den`, or `None` where the interpolation is
/// ill-conditioned: the sine of the angle between the rotations falls below
/// the epsilon whose bit pattern is `eps`.
pub uninterp spec fn slerp_of(a: Quaternion, b: Quaternion, num: u64, den: u64, eps: u64) -> Option<
    Quaternion,
>;

/// Linear interpolation between two vectors with parameter `num / den`.
pub uninterp spec fn lerp_of(a: Vector3, b: Vector3, num: u64, den: u64) -> Vector3;

/// Relies on nalgebra's `UnitQuaternion`: `from_quaternion` normalizes each
/// argument and `*` multiplies the rotations. The result depends on the
/// argument bit patterns alone.
#[verifier::external_body]
pub(crate) fn quat_mul_raw(a: &Quaternion, b: &Quaternion) -> (r: Quaternion)
    ensures
        r == quat_mul_of(*a, *b),
{
    // `f` reads a stored bit pattern back as the number it encodes; the 1.0
    // beside the cast fixes the element type.
    let one = std::time::Duration::from_secs(1).as_secs_f64();
    let f = |v: u64| [bytemuck::cast(v), one][0];
    let g = |q: &Quaternion| UnitQuaternion::from_quaternion(
        NaQuaternion::new(f(q.w), f(q.x), f(q.y), f(q.z)),
    );
    let c = (g(a) * g(b)).into_inner().coords;
    Quaternion { x: c.x.to_bits(), y: c.y.to_bits(), z: c.z.to_bits(), w: c.w.to_bits() }
}

/// Relies on nalgebra's `UnitQuaternion::inverse`: the inverse of the rotation
/// given by the normalized quaternion. Depends on the argument bits alone.
#[verifier::external_body]
pub(crate) fn quat_inv_raw(q: &Quaternion) -> (r: Quaternion)
    ensures
        r == quat_inv_of(*q),
{
    // `f` reads a stored bit pattern back as the number it encodes; the 1.0
    // beside the cast fixes the element type.
    let one = std::time::Duration::from_secs(1).as_secs_f64();
    let f = |v: u64| [bytemuck::cast(v), one][0];
    let g = UnitQuaternion::from_quaternion(
        NaQuaternion::new(f(q.w), f(q.x), f(q.y), f(q.z)),
    );
    let c = g.inverse().into_inner().coords;
    Quaternion { x: c.x.to_bits(), y: c.y.to_bits(), z: c.z.to_bits(), w: c.w.to_bits() }
}

/// Relies on nalgebra's `UnitQuaternion::from_quaternion`: the quaternion
/// scaled to unit length. Depends on the argument bits alone.
#[verifier::external_body]
pub(crate) fn quat_normalize_raw(q: &Quaternion) -> (r: Quaternion)
    ensures
        r == quat_norm_of(*q),
{
    // `f` reads a stored bit pattern back as the number it encodes; the 1.0
    // beside the cast fixes the element type.
    let one = std::time::Duration::from_secs(1).as_secs_f64();
    let f = |v: u64| [bytemuck::cast(v), one][0];
    let g = UnitQuaternion::from_quaternion(
        NaQuaternion::new(f(q.w), f(q.x), f(q.y), f(q.z)),
    );
    let c = g.into_inner().coords;
    Quaternion { x: c.x.to_bits(), y: c.y.to_bits(), z: c.z.to_bits(), w: c.w.to_bits() }
}

/// Relies on nalgebra's `Isometry3`: the point `v` rotated by the transform's
/// normalized rotation and then moved by its translation. Depends on the
/// argument bits alone.
#[verifier::external_body]
pub(crate) fn iso_apply_raw(t: &Transform, v: &Vector3) -> (r: Vector3)
    ensures
        r == iso_apply_of(*t, *v),
{
    // `f` reads a stored bit pattern back as the number it encodes; the 1.0
    // beside the cast fixes the element type.
    let one = std::time::Duration::from_secs(1).as_secs_f64();
    let f = |b: u64| [bytemuck::cast(b), one][0];
    let iso = Isometry3::from_parts(
        Translation3::new(f(t.translation.x), f(t.translation.y), f(t.translation.z)),
        UnitQuaternion::from_quaternion(
            NaQuaternion::new(f(t.rotation.w), f(t.rotation.x), f(t.rotation.y), f(t.rotation.z)),
        ),
    );
    let p = iso * Point3::new(f(v.x), f(v.y), f(v.z));
    Vector3 { x: p.x.to_bits(), y: p.y.to_bits(), z: p.z.to_bits() }
}

/// Relies on nalgebra's `UnitQuaternion::try_slerp` with parameter `num / den`
/// and the epsilon whose bit pattern is `eps`; `None` where the sine of the
/// angle between the rotations falls below that epsilon. Depends on the
/// argument bits alone.
#[verifier::external_body]
pub(crate) fn slerp_raw(a: &Quaternion, b: &Quaternion, num: u64, den: u64, eps: u64) -> (r:
    Option<Quaternion>)
    ensures
        r == slerp_of(*a, *b, num, den, eps),
{
    // The interpolation parameter is the ratio `num / den`; `f` reads a
    // stored bit pattern back as the number it encodes.
    let w = std::time::Duration::from_nanos(num).as_secs_f64()
        / std::time::Duration::from_nanos(den).as_secs_f64();
    let f = |v: u64| [bytemuck::cast(v), w][0];
    let g = |q: &Quaternion| UnitQuaternion::from_quaternion(
        NaQuaternion::new(f(q.w), f(q.x), f(q.y), f(q.z)),
    );
    g(a).try_slerp(&g(b), w, f(eps)).map(|u| {
        let c = u.into_inner().coords;
        Quaternion { x: c.x.to_bits(), y: c.y.to_bits(), z: c.z.to_bits(), w: c.w.to_bits() }
    })
}

/// Relies on nalgebra's `Vector3::lerp` with parameter `num / den`. Depends on
/// the argument bits alone.
#[verifier::external_body]
pub(crate) fn lerp_raw(a: &Vector3, b: &Vector3, num: u64, den: u64) -> (r: Vector3)
    ensures
        r == lerp_of(*a, *b, num, den),
{
    // The interpolation parameter is the ratio `num / den`; `f` reads a
    // stored bit pattern back as the number it encodes.
    let w = std::time::Duration::from_nanos(num).as_secs_f64()
        / std::time::Duration::from_nanos(den).as_secs_f64();
    let f = |v: u64| [bytemuck::cast(v), w][0];
    let p = NaVector3::new(f(a.x), f(a.y), f(a.z)).lerp(&NaVector3::new(f(b.x), f(b.y), f(b.z)), w);
    Vector3 { x: p.x.to_bits(), y: p.y.to_bits(), z: p.z.to_bits() }
}

/// Flip the sign bit of a 64-bit IEEE-754 bit pattern: exact negation.
pub open spec fn neg_bits(b: u64) -> u64 {
    b ^ 0x8000000000000000
}

/// Exact negation of each coordinate, by flipping its sign bit.
pub open spec fn neg_vector3_of(v: Vector3) -> Vector3 {
    Vector3 { x: neg_bits(v.x), y: neg_bits(v.y), z: neg_bits(v.z) }
}

/// Negate each coordinate of a vector exactly, by flipping its sign bit.
pub fn neg_vector3(v: &Vector3) -> (r: Vector3)
    ensures
        r == neg_vector3_of(*v),
{
    Vector3 {
        x: v.x ^ 0x8000000000000000,
        y: v.y ^ 0x8000000000000000,
        z: v.z ^ 0x8000000000000000,
    }
}

/// The composition of two rigid-body transforms: applying `b` first and then
/// `a`. Its rotation is the product of the rotations; its translation is `b`'s
/// translation taken through `a`.
pub open spec fn compose_of(a: Transform, b: Transform) -> Transform {
    Transform {
        translation: iso_apply_of(a, b.translation),
        rotation: quat_mul_of(a.rotation, b.rotation),
    }
}

/// Compose two rigid-body transforms: the result applies `b` first, then `a`.
pub fn compose(a: &Transform, b: &Transform) -> (r: Transform)
    ensures
        r == compose_of(*a, *b),
{
    Transform {
        translation: iso_apply_raw(a, &b.translation),
        rotation: quat_mul_raw(&a.rotation, &b.rotation),
    }
}

/// The inverse of a rigid-body transform: the inverse rotation, and the
/// original translation taken through the inverse rotation and negated.
pub open spec fn invert_of(t: Transform) -> Transform {
    Transform {
        translation: neg_vector3_of(
            iso_apply_of(
                Transform { translation: zero_vector3(), rotation: quat_inv_of(t.rotation) },
                t.translation,
            ),
        ),
        rotation: quat_inv_of(t.rotation),
    }
}

/// Get the inverse transform. Total: every transform, even one whose
/// quaternion is not normalized, has a rigid inverse.
pub fn invert_transform(transform: Transform) -> (r: Transform)
    ensures
        r == invert_of(transform),
{
    let rotation = quat_inv_raw(&transform.rotation);
    let moved = iso_apply_raw(
        &Transform { translation: Vector3::zero(), rotation },
        &transform.translation,
    );
    Transform { translation: neg_vector3(&moved), rotation }
}

/// A sequence of transforms folded into one: the empty sequence is the
/// identity, a single transform is itself, and each further transform is
/// composed on the left (it applies after everything before it).
pub open spec fn chain_of(s: Seq<Transform>) -> Transform
    decreases s.len(),
{
    if s.len() == 0 {
        identity_transform()
    } else if s.len() == 1 {
        s[0]
    } else {
        compose_of(s.last(), chain_of(s.drop_last()))
    }
}

/// Chain multiple transforms together. The vector is in order of desired
/// application: the first element is applied first.
pub fn chain_transforms(transforms: &Vec<Transform>) -> (r: Transform)
    ensures
        r == chain_of(transforms@),
{
    if transforms.len() == 0 {
        return Transform::identity();
    }
    let mut acc = transforms[0];
    let mut i: usize = 1;
    while i < transforms.len()
        invariant
            1 <= i <= transforms@.len(),
            acc == chain_of(transforms@.take(i as int)),
        decreases transforms@.len() - i,
    {
        acc = compose(&transforms[i], &acc);
        proof {
            assert(transforms@.take(i + 1 as int).drop_last() =~= transforms@.take(i as int));
        }
        i = i + 1;
    }
    proof {
        assert(transforms@.take(transforms@.len() as int) =~= transforms@);
    }
    acc
}

/// Interpolation between two transforms with parameter `num / den` in [0, 1]:
/// exactly `t1` at 0 and exactly `t2` at 1; in between, the translation is
/// interpolated linearly and the rotation spherically, falling back to the
/// nearer endpoint's rotation where spherical interpolation is
/// ill-conditioned.
pub open spec fn interpolate_of(t1: Transform, t2: Transform, num: u64, den: u64) -> Transform {
    if num == 0 {
        t1
    } else if num == den {
        t2
    } else {
        Transform {
            translation: lerp_of(t1.translation, t2.translation, num, den),
            rotation: match slerp_of(t1.rotation, t2.rotation, num, den, SLERP_EPSILON_BITS) {
                Some(q) => q,
                None => if num > den / 2 {
                    t2.rotation
                } else {
                    t1.rotation
                },
            },
        }
    }
}

/// Interpolate between two transforms with parameter `num / den`.
/// The endpoints are exact: parameter 0 gives `t1` and parameter 1 gives `t2`.
pub fn interpolate(t1: Transform, t2: Transform, num: u64, den: u64) -> (r: Transform)
    requires
        0 < den,
        num <= den,
    ensures
        r == interpolate_of(t1, t2, num, den),
        num == 0 ==> r == t1,
        num == den ==> r == t2,
{
    if num == 0 {
        return t1;
    }
    if num == den {
        return t2;
    }
    let rotation = match slerp_raw(&t1.rotation, &t2.rotation, num, den, SLERP_EPSILON_BITS) {
        Some(q) => q,
        None => if num > den / 2 {
            t2.rotation
        } else {
            t1.rotation
        },
    };
    Transform { translation: lerp_raw(&t1.translation, &t2.translation, num, den), rotation }
}

/// Chaining the empty sequence gives the identity transform.
pub proof fn lemma_chain_empty()
    ensures
        chain_of(Seq::<Transform>::empty()) == identity_transform(),
{
}

/// Chaining a single transform gives exactly that transform.
pub proof fn lemma_chain_singleton(t: Transform)
    ensures
        chain_of(seq![t]) == t,
{
}

} // verus!
