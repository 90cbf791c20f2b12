//! Helpers around stamped transforms.

use vstd::prelude::*;

use crate::msg::{Header, Time, Transform, TransformStamped};
use crate::transforms::{invert_of, invert_transform};

verus! {

/// The sample of the opposite edge: frames swapped, transform inverted,
/// stamp and sequence number kept.
pub open spec fn inverse_sample(transform: TransformStamped) -> TransformStamped {
    TransformStamped {
        header: Header {
            seq: transform.header.seq,
            frame_id: transform.child_frame_id,
            stamp: transform.header.stamp,
        },
        child_frame_id: transform.header.frame_id,
        transform: invert_of(transform.transform),
    }
}

/// Calculates the inverse of a stamped transform: the same sample seen from
/// the other end of its edge.
pub fn get_inverse(transform: TransformStamped) -> (r: TransformStamped)
    ensures
        r == inverse_sample(transform),
{
    let inverse = invert_transform(transform.transform);
    TransformStamped {
        header: Header {
            frame_id: transform.child_frame_id,
            stamp: transform.header.stamp,
            seq: transform.header.seq,
        },
        child_frame_id: transform.header.frame_id,
        transform: inverse,
    }
}

/// Wrap a bare transform into a stamped sample from `from` to `to` at `time`.
pub fn to_transform_stamped(transform: Transform, from: String, to: String, time: Time) -> (r:
    TransformStamped)
    ensures
        r == (TransformStamped {
            header: Header { seq: 0u32, frame_id: from, stamp: time },
            child_frame_id: to,
            transform,
        }),
{
    TransformStamped {
        child_frame_id: to,
        header: Header { frame_id: from, stamp: time, seq: 0 },
        transform,
    }
}

/// A duration as a whole number of nanoseconds.
pub fn get_nanos(dur: crate::msg::Duration) -> (r: i64)
    ensures
        r == dur.as_nanos(),
{
    dur.sec as i64 * 1_000_000_000 + dur.nsec as i64
}

} // verus!
