use rustros_tf::buffer::Buffer;
use rustros_tf::errors::{DiagnosticReason, TfError};
use rustros_tf::msg::{Duration, Header, Quaternion, Time, Transform, TransformStamped, Vector3};
use rustros_tf::transforms::invert_transform;
use rustros_tf::utils::get_inverse;

fn vector(x: f64, y: f64, z: f64) -> Vector3 {
    Vector3 { x: x.to_bits(), y: y.to_bits(), z: z.to_bits() }
}

fn quaternion(x: f64, y: f64, z: f64, w: f64) -> Quaternion {
    Quaternion { x: x.to_bits(), y: y.to_bits(), z: z.to_bits(), w: w.to_bits() }
}

fn sample(parent: &str, child: &str, stamp: Time, translation: Vector3) -> TransformStamped {
    TransformStamped {
        header: Header { seq: 1, frame_id: parent.to_string(), stamp },
        child_frame_id: child.to_string(),
        transform: Transform { translation, rotation: quaternion(0.0, 0.0, 0.0, 1.0) },
    }
}

fn assert_close(actual: u64, expected: f64, what: &str) {
    let actual = f64::from_bits(actual);
    assert!(
        (actual - expected).abs() < 1e-9,
        "{}: got {}, expected {}",
        what,
        actual,
        expected
    );
}

fn assert_translation(ts: &TransformStamped, x: f64, y: f64, z: f64) {
    assert_close(ts.transform.translation.x, x, "translation x");
    assert_close(ts.transform.translation.y, y, "translation y");
    assert_close(ts.transform.translation.z, z, "translation z");
    assert_close(ts.transform.rotation.x, 0.0, "rotation x");
    assert_close(ts.transform.rotation.y, 0.0, "rotation y");
    assert_close(ts.transform.rotation.z, 0.0, "rotation z");
    assert_close(ts.transform.rotation.w, 1.0, "rotation w");
}

/// Builds a tree consisting of a world frame, an item at (1, 0, 0), a robot
/// base starting at (0, 0, 0) and rising to (0, t, 0) at time t, and a camera
/// at (0.5, 0, 0) from the base.
fn build_test_tree(buffer: &mut Buffer, seconds: u32) {
    let stamp = Time::from_seconds(seconds);
    buffer
        .add_transform(sample("world", "item", stamp, vector(1.0, 0.0, 0.0)), true)
        .unwrap();
    buffer
        .add_transform(
            sample("world", "base_link", stamp, vector(0.0, seconds as f64, 0.0)),
            false,
        )
        .unwrap();
    buffer
        .add_transform(sample("base_link", "camera", stamp, vector(0.5, 0.0, 0.0)), true)
        .unwrap();
}

#[test]
fn test_basic_tf_lookup() {
    let mut tf_buffer = Buffer::new();
    build_test_tree(&mut tf_buffer, 0);
    let res = tf_buffer
        .lookup_transform("camera", "item", Time { sec: 0, nsec: 0 })
        .unwrap();
    assert_eq!(res.header.frame_id, "camera");
    assert_eq!(res.child_frame_id, "item");
    assert_translation(&res, 0.5, 0.0, 0.0);
}

#[test]
fn test_basic_tf_interpolation() {
    let mut tf_buffer = Buffer::new();
    build_test_tree(&mut tf_buffer, 0);
    build_test_tree(&mut tf_buffer, 1);
    let res = tf_buffer
        .lookup_transform("camera", "item", Time { sec: 0, nsec: 700_000_000 })
        .unwrap();
    assert_eq!(res.header.frame_id, "camera");
    assert_eq!(res.child_frame_id, "item");
    assert_eq!(res.header.stamp, Time { sec: 0, nsec: 700_000_000 });
    assert_translation(&res, 0.5, -0.7, 0.0);
}

#[test]
fn test_basic_tf_timetravel() {
    let mut tf_buffer = Buffer::new();
    build_test_tree(&mut tf_buffer, 0);
    build_test_tree(&mut tf_buffer, 1);
    let res = tf_buffer
        .lookup_transform_with_time_travel(
            "camera",
            Time { sec: 0, nsec: 400_000_000 },
            "camera",
            Time { sec: 0, nsec: 700_000_000 },
            "item",
            Duration { sec: 0, nsec: 700_000_000 },
        )
        .unwrap();
    assert_eq!(res.header.frame_id, "camera");
    assert_eq!(res.child_frame_id, "camera");
    assert_eq!(res.header.stamp, Time { sec: 0, nsec: 700_000_000 });
    assert_translation(&res, 0.0, 0.3, 0.0);
}

#[test]
fn test_lookup_symmetry() {
    let mut tf_buffer = Buffer::new();
    build_test_tree(&mut tf_buffer, 0);
    build_test_tree(&mut tf_buffer, 1);
    let time = Time { sec: 0, nsec: 700_000_000 };
    let forward = tf_buffer.lookup_transform("camera", "item", time).unwrap();
    let backward = tf_buffer.lookup_transform("item", "camera", time).unwrap();
    let inverted = invert_transform(backward.transform);
    assert_close(
        forward.transform.translation.x,
        f64::from_bits(inverted.translation.x),
        "symmetric translation x",
    );
    assert_close(
        forward.transform.translation.y,
        f64::from_bits(inverted.translation.y),
        "symmetric translation y",
    );
    assert_close(
        forward.transform.translation.z,
        f64::from_bits(inverted.translation.z),
        "symmetric translation z",
    );
}

#[test]
fn test_lookup_same_frame_is_identity() {
    let tf_buffer = Buffer::new();
    let res = tf_buffer
        .lookup_transform("base_link", "base_link", Time::from_seconds(7))
        .unwrap();
    assert_eq!(res.header.frame_id, "base_link");
    assert_eq!(res.child_frame_id, "base_link");
    assert_eq!(res.header.stamp, Time::from_seconds(7));
    assert_translation(&res, 0.0, 0.0, 0.0);
}

#[test]
fn test_lookup_no_path() {
    let mut tf_buffer = Buffer::new();
    build_test_tree(&mut tf_buffer, 0);
    tf_buffer
        .add_transform(
            sample("lonely", "island", Time::from_seconds(0), vector(1.0, 1.0, 1.0)),
            false,
        )
        .unwrap();
    let res = tf_buffer.lookup_transform("camera", "island", Time::from_seconds(0));
    assert!(matches!(res, Err(TfError::CouldNotFindTransform)));
}

#[test]
fn test_lookup_outside_window() {
    let mut tf_buffer = Buffer::new();
    build_test_tree(&mut tf_buffer, 10);
    build_test_tree(&mut tf_buffer, 11);
    let past = tf_buffer.lookup_transform("camera", "item", Time::from_seconds(2));
    assert!(matches!(past, Err(TfError::AttemptedLookupInPast)));
    let future = tf_buffer.lookup_transform("camera", "item", Time::from_seconds(30));
    assert!(matches!(future, Err(TfError::AttemptedLookUpInFuture)));
}

#[test]
fn test_lookup_latest_available() {
    let mut tf_buffer = Buffer::new();
    // Two timed edges whose newest stamps differ: the sentinel resolves to
    // the older of the two newest stamps.
    for t in [4u32, 5] {
        tf_buffer
            .add_transform(
                sample("a", "b", Time::from_seconds(t), vector(t as f64, 0.0, 0.0)),
                false,
            )
            .unwrap();
    }
    for t in [3u32, 4] {
        tf_buffer
            .add_transform(
                sample("b", "c", Time::from_seconds(t), vector(0.0, 0.0, 0.0)),
                false,
            )
            .unwrap();
    }
    let res = tf_buffer.lookup_transform("c", "a", Time::zero()).unwrap();
    assert_eq!(res.header.stamp, Time::from_seconds(4));
    assert_translation(&res, -4.0, 0.0, 0.0);
}

#[test]
fn test_can_transform() {
    let mut tf_buffer = Buffer::new();
    build_test_tree(&mut tf_buffer, 10);
    let timeout = Duration::from_seconds(1);
    assert_eq!(
        tf_buffer.can_transform("camera", "item", Time::from_seconds(10), timeout),
        Ok(true)
    );
    // The data for a future instant has not arrived: answered false, the
    // shell may wait and ask again.
    assert_eq!(
        tf_buffer.can_transform("camera", "item", Time::from_seconds(30), timeout),
        Ok(false)
    );
    // A frame with no route is an error, not a wait.
    assert!(matches!(
        tf_buffer.can_transform("camera", "nowhere", Time::from_seconds(10), timeout),
        Err(TfError::CouldNotFindTransform)
    ));
}

#[test]
fn test_add_transform_rejections() {
    let mut tf_buffer = Buffer::new();
    let stamp = Time::from_seconds(1);

    let self_parent = sample("base", "base", stamp, vector(0.0, 0.0, 0.0));
    let diag = tf_buffer.add_transform(self_parent, false).unwrap_err();
    assert_eq!(diag.reason, DiagnosticReason::SelfParent);
    assert!(diag.reason.message().starts_with("TF_SELF_PARENT"));

    let empty = sample("", "base", stamp, vector(0.0, 0.0, 0.0));
    let diag = tf_buffer.add_transform(empty, false).unwrap_err();
    assert_eq!(diag.reason, DiagnosticReason::EmptyFrameId);

    let mut bad = sample("world", "base", stamp, vector(0.0, 0.0, 0.0));
    bad.transform.translation.y = f64::NAN.to_bits();
    let diag = tf_buffer.add_transform(bad, false).unwrap_err();
    assert_eq!(diag.reason, DiagnosticReason::NanInput);
    assert!(diag.reason.message().starts_with("TF_NAN_INPUT"));

    tf_buffer
        .add_transform(sample("world", "base", stamp, vector(0.0, 0.0, 0.0)), false)
        .unwrap();
    // The edge exists as a timed edge: a static sample may not change that.
    let diag = tf_buffer
        .add_transform(sample("world", "base", Time::from_seconds(2), vector(0.0, 0.0, 0.0)), true)
        .unwrap_err();
    assert_eq!(diag.reason, DiagnosticReason::VariantChange);

    // A rejected sample rolls back both directions: the reverse edge stays
    // in step with the forward edge.
    let diag = tf_buffer
        .add_transform(sample("world", "base", stamp, vector(5.0, 0.0, 0.0)), false)
        .unwrap_err();
    assert_eq!(diag.reason, DiagnosticReason::RepeatedData);
    assert_eq!(diag.parent, "world");
    assert_eq!(diag.child, "base");
    assert_eq!(diag.stamp, stamp);
    let forward = tf_buffer.lookup_transform("world", "base", stamp).unwrap();
    assert_translation(&forward, 0.0, 0.0, 0.0);
}

#[test]
fn test_old_data_rejected() {
    let mut tf_buffer = Buffer::new();
    tf_buffer
        .add_transform(sample("a", "b", Time::from_seconds(83), vector(0.0, 0.0, 0.0)), false)
        .unwrap();
    // Eleven seconds behind the newest sample falls out of the ten-second
    // window.
    let diag = tf_buffer
        .add_transform(sample("a", "b", Time::from_seconds(72), vector(0.0, 0.0, 0.0)), false)
        .unwrap_err();
    assert_eq!(diag.reason, DiagnosticReason::OldData);
    assert!(diag.reason.message().starts_with("TF_OLD_DATA"));
}

#[test]
fn test_handle_incoming_transforms_reports_rejections() {
    let mut tf_buffer = Buffer::new();
    let stamp = Time::from_seconds(1);
    let batch = rustros_tf::msg::TFMessage {
        transforms: vec![
            sample("world", "base", stamp, vector(0.0, 1.0, 0.0)),
            sample("base", "base", stamp, vector(0.0, 0.0, 0.0)),
            sample("world", "base", stamp, vector(0.0, 2.0, 0.0)),
        ],
    };
    let diagnostics = tf_buffer.handle_incoming_transforms(batch, false);
    assert_eq!(diagnostics.len(), 2);
    assert_eq!(diagnostics[0].reason, DiagnosticReason::SelfParent);
    assert_eq!(diagnostics[1].reason, DiagnosticReason::RepeatedData);
    let stored = tf_buffer.lookup_transform("world", "base", stamp).unwrap();
    assert_translation(&stored, 0.0, 1.0, 0.0);
}

#[test]
fn test_ingress_normalizes_rotation() {
    let mut tf_buffer = Buffer::new();
    let mut s = sample("world", "base", Time::from_seconds(1), vector(0.0, 0.0, 0.0));
    s.transform.rotation = quaternion(0.0, 0.0, 0.0, 2.0);
    tf_buffer.add_transform(s, false).unwrap();
    let stored = tf_buffer
        .lookup_transform("world", "base", Time::from_seconds(1))
        .unwrap();
    assert_close(stored.transform.rotation.w, 1.0, "normalized w");
}

#[test]
fn test_graph_too_deep() {
    let mut tf_buffer = Buffer::new();
    let stamp = Time::from_seconds(1);
    for i in 0..1002u32 {
        tf_buffer
            .add_transform(
                sample(&format!("n{}", i), &format!("n{}", i + 1), stamp, vector(1.0, 0.0, 0.0)),
                true,
            )
            .unwrap();
    }
    let res = tf_buffer.lookup_transform("n1002", "n0", stamp);
    assert!(matches!(res, Err(TfError::GraphTooDeep)));
}

#[test]
fn test_get_inverse_swaps_frames() {
    let s = sample("world", "base", Time::from_seconds(3), vector(1.0, 2.0, 3.0));
    let inv = get_inverse(s.clone());
    assert_eq!(inv.header.frame_id, "base");
    assert_eq!(inv.child_frame_id, "world");
    assert_eq!(inv.header.stamp, s.header.stamp);
    assert_translation(&inv, -1.0, -2.0, -3.0);
}

#[test]
fn test_ingest_then_lookup_reads_back() {
    // One sample through batch ingestion: the lookup with the parent as
    // target returns the stored transform, the swapped lookup its inverse.
    let mut tf_buffer = Buffer::new();
    let stamp = Time::from_seconds(6);
    let batch = rustros_tf::msg::TFMessage {
        transforms: vec![sample("world", "base", stamp, vector(3.0, -1.0, 0.5))],
    };
    let diagnostics = tf_buffer.handle_incoming_transforms(batch, false);
    assert!(diagnostics.is_empty());
    let stored = tf_buffer.lookup_transform("world", "base", stamp).unwrap();
    assert_eq!(stored.header.frame_id, "world");
    assert_eq!(stored.child_frame_id, "base");
    assert_eq!(stored.header.stamp, stamp);
    assert_translation(&stored, 3.0, -1.0, 0.5);
    let inverse = tf_buffer.lookup_transform("base", "world", stamp).unwrap();
    assert_translation(&inverse, -3.0, 1.0, -0.5);
}

#[test]
fn test_lookup_returns_shortest_path_composition() {
    // Two routes join the endpoints; the direct edge wins, so the lookup
    // composes one step, not the detour.
    let mut tf_buffer = Buffer::new();
    let stamp = Time::from_seconds(1);
    tf_buffer
        .add_transform(sample("a", "b", stamp, vector(1.0, 0.0, 0.0)), true)
        .unwrap();
    tf_buffer
        .add_transform(sample("b", "c", stamp, vector(1.0, 0.0, 0.0)), true)
        .unwrap();
    // The detour a -> b -> c measures 2; the direct edge says 5.
    tf_buffer
        .add_transform(sample("a", "c", stamp, vector(5.0, 0.0, 0.0)), true)
        .unwrap();
    let direct = tf_buffer.lookup_transform("a", "c", stamp).unwrap();
    assert_translation(&direct, 5.0, 0.0, 0.0);
}

#[test]
fn test_add_sample_reads_back_both_directions() {
    let mut tf_buffer = Buffer::new();
    let stamp = Time::from_seconds(5);
    tf_buffer
        .add_transform(sample("world", "base", stamp, vector(2.0, 0.0, 0.0)), false)
        .unwrap();
    // The pose of the child in the parent comes back from a lookup with the
    // parent as target, and its inverse from the swapped lookup.
    let stored = tf_buffer.lookup_transform("world", "base", stamp).unwrap();
    assert_translation(&stored, 2.0, 0.0, 0.0);
    let inverse = tf_buffer.lookup_transform("base", "world", stamp).unwrap();
    assert_translation(&inverse, -2.0, 0.0, 0.0);
}
