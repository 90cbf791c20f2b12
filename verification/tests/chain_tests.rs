use rustros_tf::chain::TfIndividualTransformChain;
use rustros_tf::errors::TfError;
use rustros_tf::msg::{Header, Quaternion, Time, Transform, TransformStamped, Vector3};

fn sample(parent: &str, stamp: Time, x: f64) -> TransformStamped {
    TransformStamped {
        header: Header { seq: 0, frame_id: parent.to_string(), stamp },
        child_frame_id: "child".to_string(),
        transform: Transform {
            translation: Vector3 { x: x.to_bits(), y: 0f64.to_bits(), z: 0f64.to_bits() },
            rotation: Quaternion {
                x: 0f64.to_bits(),
                y: 0f64.to_bits(),
                z: 0f64.to_bits(),
                w: 1f64.to_bits(),
            },
        },
    }
}

#[test]
fn test_chain_exact_and_interpolated_lookup() {
    let mut chain = TfIndividualTransformChain::new(false);
    chain.add_to_buffer(sample("map", Time::from_seconds(2), 2.0));
    chain.add_to_buffer(sample("map", Time::from_seconds(4), 4.0));

    // An exact stamp comes back verbatim.
    let exact = chain.get_closest_transform(Time::from_seconds(2)).unwrap();
    assert_eq!(f64::from_bits(exact.transform.translation.x), 2.0);

    // A bracketed query interpolates and is stamped at the query time.
    let mid = chain.get_closest_transform(Time::from_seconds(3)).unwrap();
    assert!((f64::from_bits(mid.transform.translation.x) - 3.0).abs() < 1e-9);
    assert_eq!(mid.header.stamp, Time::from_seconds(3));
    assert_eq!(mid.header.frame_id, "map");

    // Outside the stored range the refusal names the direction.
    assert!(matches!(
        chain.get_closest_transform(Time::from_seconds(1)),
        Err(TfError::AttemptedLookupInPast)
    ));
    assert!(matches!(
        chain.get_closest_transform(Time::from_seconds(5)),
        Err(TfError::AttemptedLookUpInFuture)
    ));
}

#[test]
fn test_chain_static_returns_newest() {
    let mut chain = TfIndividualTransformChain::new(true);
    chain.add_to_buffer(sample("map", Time::from_seconds(1), 1.0));
    chain.add_to_buffer(sample("map", Time::from_seconds(9), 9.0));
    // A static chain answers any query with its newest sample.
    let got = chain.get_closest_transform(Time::from_seconds(100)).unwrap();
    assert_eq!(f64::from_bits(got.transform.translation.x), 9.0);
}

#[test]
fn test_chain_static_empty_answers_past() {
    let chain = TfIndividualTransformChain::new(true);
    // A static chain that holds nothing yet refuses with a lookup-in-past.
    assert!(matches!(
        chain.get_closest_transform(Time::from_seconds(5)),
        Err(TfError::AttemptedLookupInPast)
    ));
}

#[test]
fn test_chain_evicts_oldest_past_capacity() {
    let mut chain = TfIndividualTransformChain::new(false);
    for t in 0..101u32 {
        chain.add_to_buffer(sample("map", Time::from_seconds(t), t as f64));
    }
    // The chain holds one hundred samples: the oldest fell off.
    assert!(matches!(
        chain.get_closest_transform(Time::from_seconds(0)),
        Err(TfError::AttemptedLookupInPast)
    ));
    let oldest_kept = chain.get_closest_transform(Time::from_seconds(1)).unwrap();
    assert_eq!(f64::from_bits(oldest_kept.transform.translation.x), 1.0);
}
