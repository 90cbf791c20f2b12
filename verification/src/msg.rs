//! Message types: times, durations, and stamped rigid-body transforms.
//!
//! A transform component (a translation coordinate or a quaternion component)
//! is stored as the 64-bit IEEE-754 bit pattern of the number, so that the
//! cache and graph logic can be reasoned about exactly; the numeric algebra
//! itself lives behind the trusted calls in `transforms`.

use vstd::prelude::*;

verus! {

/// Nanoseconds in one second.
pub const NANOS_PER_SEC: u64 = 1_000_000_000;

/// An instant, split into whole seconds and nanoseconds within the second,
/// as transform headers carry it on the wire. The sentinel `Time::zero`
/// (both fields zero) means "latest available" in lookups.
#[derive(Clone, Copy, Debug, PartialEq, Eq, Structural, Hash)]
pub struct Time {
    pub sec: u32,
    pub nsec: u32,
}

/// A span of time, same resolution as `Time`.
#[derive(Clone, Copy, Debug, PartialEq, Eq, Structural, Hash)]
pub struct Duration {
    pub sec: u32,
    pub nsec: u32,
}

impl Time {
    /// The instant as a whole number of nanoseconds.
    pub open spec fn as_nanos(self) -> int {
        self.sec * (NANOS_PER_SEC as int) + self.nsec
    }

    /// Whether this is the sentinel meaning "latest available".
    pub open spec fn is_zero(self) -> bool {
        self.as_nanos() == 0
    }

    pub fn zero() -> (r: Time)
        ensures
            r.as_nanos() == 0,
    {
        Time { sec: 0, nsec: 0 }
    }

    pub fn from_seconds(sec: u32) -> (r: Time)
        ensures
            r.as_nanos() == sec * (NANOS_PER_SEC as int),
    {
        Time { sec, nsec: 0 }
    }

    pub fn from_nanos(nanos: i64) -> (r: Time)
        requires
            0 <= nanos,
            nanos as int / (NANOS_PER_SEC as int) <= u32::MAX,
        ensures
            r.as_nanos() == nanos,
    {
        let sec = (nanos / NANOS_PER_SEC as i64) as u32;
        let nsec = (nanos % NANOS_PER_SEC as i64) as u32;
        Time { sec, nsec }
    }

    /// The instant as nanoseconds, for exact comparisons and differences.
    pub fn nanos(&self) -> (r: u64)
        ensures
            r == self.as_nanos(),
    {
        self.sec as u64 * NANOS_PER_SEC + self.nsec as u64
    }
}

impl Duration {
    /// The span as a whole number of nanoseconds.
    pub open spec fn as_nanos(self) -> int {
        self.sec * (NANOS_PER_SEC as int) + self.nsec
    }

    pub fn from_seconds(sec: u32) -> (r: Duration)
        ensures
            r.as_nanos() == sec * (NANOS_PER_SEC as int),
    {
        Duration { sec, nsec: 0 }
    }

    pub fn from_nanos(nanos: i64) -> (r: Duration)
        requires
            0 <= nanos,
            nanos as int / (NANOS_PER_SEC as int) <= u32::MAX,
        ensures
            r.as_nanos() == nanos,
    {
        let sec = (nanos / NANOS_PER_SEC as i64) as u32;
        let nsec = (nanos % NANOS_PER_SEC as i64) as u32;
        Duration { sec, nsec }
    }

    /// The span as nanoseconds, for exact comparisons.
    pub fn nanos(&self) -> (r: u64)
        ensures
            r == self.as_nanos(),
    {
        self.sec as u64 * NANOS_PER_SEC + self.nsec as u64
    }
}

/// Whether a 64-bit IEEE-754 bit pattern encodes a finite number
/// (neither an infinity nor a NaN: its exponent field is not all ones).
pub open spec fn is_finite_bits(b: u64) -> bool {
    (b >> 52) & 0x7ff != 0x7ff
}

/// Runtime check matching `is_finite_bits`.
pub fn finite_bits(b: u64) -> (r: bool)
    ensures
        r == is_finite_bits(b),
{
    (b >> 52) & 0x7ff != 0x7ff
}

/// A 3-vector; each coordinate is the bit pattern of a 64-bit IEEE-754 number.
#[derive(Clone, Copy, Debug, PartialEq, Eq, Structural)]
pub struct Vector3 {
    pub x: u64,
    pub y: u64,
    pub z: u64,
}

impl Vector3 {
    /// The zero vector.
    pub fn zero() -> (r: Vector3)
        ensures
            r == zero_vector3(),
    {
        Vector3 { x: 0, y: 0, z: 0 }
    }

    pub open spec fn spec_is_finite(self) -> bool {
        is_finite_bits(self.x) && is_finite_bits(self.y) && is_finite_bits(self.z)
    }

    pub fn is_finite(&self) -> (r: bool)
        ensures
            r == self.spec_is_finite(),
    {
        finite_bits(self.x) && finite_bits(self.y) && finite_bits(self.z)
    }
}

/// The zero vector (the bit pattern of +0.0 is all zero bits).
pub open spec fn zero_vector3() -> Vector3 {
    Vector3 { x: 0, y: 0, z: 0 }
}

/// The bit pattern of the 64-bit IEEE-754 number 1.0.
pub const ONE_BITS: u64 = 0x3ff0000000000000;

/// A rotation; each component is the bit pattern of a 64-bit IEEE-754 number.
#[derive(Clone, Copy, Debug, PartialEq, Eq, Structural)]
pub struct Quaternion {
    pub x: u64,
    pub y: u64,
    pub z: u64,
    pub w: u64,
}

impl Quaternion {
    /// The identity rotation (x = y = z = 0.0, w = 1.0).
    pub fn identity() -> (r: Quaternion)
        ensures
            r == identity_quaternion(),
    {
        Quaternion { x: 0, y: 0, z: 0, w: ONE_BITS }
    }

    pub open spec fn spec_is_finite(self) -> bool {
        is_finite_bits(self.x) && is_finite_bits(self.y) && is_finite_bits(self.z)
            && is_finite_bits(self.w)
    }

    pub fn is_finite(&self) -> (r: bool)
        ensures
            r == self.spec_is_finite(),
    {
        finite_bits(self.x) && finite_bits(self.y) && finite_bits(self.z) && finite_bits(self.w)
    }
}

/// The identity rotation.
pub open spec fn identity_quaternion() -> Quaternion {
    Quaternion { x: 0, y: 0, z: 0, w: ONE_BITS }
}

/// A rigid-body transform: a rotation followed by a translation.
#[derive(Clone, Copy, Debug, PartialEq, Eq, Structural)]
pub struct Transform {
    pub translation: Vector3,
    pub rotation: Quaternion,
}

impl Transform {
    /// The identity transform.
    pub fn identity() -> (r: Transform)
        ensures
            r == identity_transform(),
    {
        Transform { translation: Vector3::zero(), rotation: Quaternion::identity() }
    }

    pub open spec fn spec_is_finite(self) -> bool {
        self.translation.spec_is_finite() && self.rotation.spec_is_finite()
    }

    pub fn is_finite(&self) -> (r: bool)
        ensures
            r == self.spec_is_finite(),
    {
        self.translation.is_finite() && self.rotation.is_finite()
    }
}

/// The identity transform.
pub open spec fn identity_transform() -> Transform {
    Transform { translation: zero_vector3(), rotation: identity_quaternion() }
}

/// The header of a stamped transform: the parent frame and the sample instant.
#[derive(Debug)]
pub struct Header {
    pub seq: u32,
    pub frame_id: String,
    pub stamp: Time,
}

impl Clone for Header {
    fn clone(&self) -> (r: Self)
        ensures
            r == *self,
    {
        Header { seq: self.seq, frame_id: self.frame_id.clone(), stamp: self.stamp }
    }
}

impl PartialEq for Header {
    fn eq(&self, other: &Self) -> (r: bool) {
        self.seq == other.seq && self.frame_id == other.frame_id && self.stamp == other.stamp
    }
}

impl vstd::std_specs::cmp::PartialEqSpecImpl for Header {
    open spec fn obeys_eq_spec() -> bool {
        true
    }

    open spec fn eq_spec(&self, other: &Self) -> bool {
        self.seq == other.seq && self.frame_id@ == other.frame_id@ && self.stamp == other.stamp
    }
}

impl Default for Header {
    fn default() -> (r: Self)
        ensures
            r.seq == 0,
            r.frame_id@ == Seq::<char>::empty(),
            r.stamp.as_nanos() == 0,
    {
        Header { seq: 0, frame_id: String::new(), stamp: Time { sec: 0, nsec: 0 } }
    }
}

/// A transform sample: the pose of the child frame expressed in the parent
/// frame (`header.frame_id`), taken at `header.stamp`.
#[derive(Debug)]
pub struct TransformStamped {
    pub header: Header,
    pub child_frame_id: String,
    pub transform: Transform,
}

impl TransformStamped {
    /// The sample's stamp as nanoseconds.
    pub open spec fn stamp_nanos(self) -> int {
        self.header.stamp.as_nanos()
    }
}

impl Clone for TransformStamped {
    fn clone(&self) -> (r: Self)
        ensures
            r == *self,
    {
        TransformStamped {
            header: self.header.clone(),
            child_frame_id: self.child_frame_id.clone(),
            transform: self.transform,
        }
    }
}

impl PartialEq for TransformStamped {
    fn eq(&self, other: &Self) -> (r: bool) {
        self.header == other.header && self.child_frame_id == other.child_frame_id
            && self.transform == other.transform
    }
}

impl vstd::std_specs::cmp::PartialEqSpecImpl for TransformStamped {
    open spec fn obeys_eq_spec() -> bool {
        true
    }

    open spec fn eq_spec(&self, other: &Self) -> bool {
        self.header.seq == other.header.seq && self.header.frame_id@ == other.header.frame_id@
            && self.header.stamp == other.header.stamp && self.child_frame_id@
            == other.child_frame_id@ && self.transform == other.transform
    }
}

impl Default for TransformStamped {
    fn default() -> (r: Self)
        ensures
            r.header.seq == 0,
            r.header.frame_id@ == Seq::<char>::empty(),
            r.header.stamp.as_nanos() == 0,
            r.child_frame_id@ == Seq::<char>::empty(),
            r.transform == (Transform {
                translation: Vector3 { x: 0, y: 0, z: 0 },
                rotation: Quaternion { x: 0, y: 0, z: 0, w: 0 },
            }),
    {
        TransformStamped {
            header: Header::default(),
            child_frame_id: String::new(),
            transform: Transform {
                translation: Vector3 { x: 0, y: 0, z: 0 },
                rotation: Quaternion { x: 0, y: 0, z: 0, w: 0 },
            },
        }
    }
}

/// A batch of transform samples, as one message of the transport delivers it.
#[derive(Clone, Debug)]
pub struct TFMessage {
    pub transforms: Vec<TransformStamped>,
}

/// Conversion between a transport-level message type and a library type.
pub trait MessageConverter: Sized {
    type MessageType;

    fn from_msg(msg: Self::MessageType) -> Self;

    fn to_msg(output: Self) -> Self::MessageType;
}

} // verus!
