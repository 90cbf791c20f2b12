use rustros_tf::graph::TfGraphNode;
use rustros_tf::msg::{Duration, Time};
use rustros_tf::utils::{get_nanos, to_transform_stamped};

#[test]
fn test_time_conversions() {
    let t = Time::from_nanos(3_500_000_000);
    assert_eq!(t.sec, 3);
    assert_eq!(t.nsec, 500_000_000);
    assert_eq!(t.nanos(), 3_500_000_000);
    assert_eq!(Time::from_seconds(2).nanos(), 2_000_000_000);
    assert_eq!(Time::zero().nanos(), 0);
}

#[test]
fn test_get_nanos() {
    let d = Duration { sec: 7, nsec: 250_000_000 };
    assert_eq!(get_nanos(d), 7_250_000_000);
    assert_eq!(get_nanos(Duration::from_seconds(10)), 10_000_000_000);
}

#[test]
fn test_to_transform_stamped_labels() {
    let ts = to_transform_stamped(
        rustros_tf::msg::Transform {
            translation: rustros_tf::msg::Vector3 { x: 0, y: 0, z: 0 },
            rotation: rustros_tf::msg::Quaternion { x: 0, y: 0, z: 0, w: 0 },
        },
        "map".to_string(),
        "robot".to_string(),
        Time::from_seconds(9),
    );
    assert_eq!(ts.header.frame_id, "map");
    assert_eq!(ts.child_frame_id, "robot");
    assert_eq!(ts.header.stamp, Time::from_seconds(9));
    assert_eq!(ts.header.seq, 0);
}

#[test]
fn test_graph_node_equality() {
    let a = TfGraphNode { child: "c".to_string(), parent: "p".to_string() };
    let b = TfGraphNode { child: "c".to_string(), parent: "p".to_string() };
    let c = TfGraphNode { child: "p".to_string(), parent: "c".to_string() };
    assert_eq!(a, b);
    assert_ne!(a, c);
}
