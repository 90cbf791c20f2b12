use rustros_tf::errors::TfError;
use rustros_tf::frames::timed_frame::{TimedFrame, DEFAULT_MAX_STORAGE_TIME};
use rustros_tf::msg::{Duration, Header, Time, TransformStamped};

fn stamped(frame_id: &str, stamp: Time) -> TransformStamped {
    TransformStamped {
        header: Header { stamp, frame_id: frame_id.to_string(), ..Default::default() },
        ..Default::default()
    }
}

fn frame_over(range: std::ops::Range<u32>) -> TimedFrame {
    let mut timed_frame = TimedFrame::new(Duration::from_seconds(10));
    for t in range {
        timed_frame
            .insert_data(stamped(&format!("parent_{}", t), Time::from_seconds(t)))
            .unwrap();
    }
    timed_frame
}

#[test]
fn test_timed_get_too_old_parent() {
    let timed_frame = frame_over(5..10);

    let parent = timed_frame.get_parent(Time::from_seconds(1));
    assert_eq!(parent, None);
}

#[test]
fn test_timed_get_too_young_parent() {
    let timed_frame = frame_over(5..10);

    let parent = timed_frame.get_parent(Time::from_seconds(12));
    assert_eq!(parent, None);
}

#[test]
fn test_timed_get_inexisting_parent() {
    let timed_frame = TimedFrame::new(Duration::from_seconds(10));

    let parent = timed_frame.get_parent(Time::from_seconds(1));
    assert_eq!(parent, None);
}

#[test]
fn test_timed_get_parent() {
    let timed_frame = frame_over(0..10);

    let parent = timed_frame.get_parent(Time::from_seconds(3));
    assert_eq!(parent, Some("parent_3"));

    let parent = timed_frame.get_parent(Time::from_nanos(3.5e9 as i64));
    assert_eq!(parent, Some("parent_3"));

    let mut timed_frame = TimedFrame::new(Duration::from_seconds(10));
    for t in 0..3 {
        timed_frame
            .insert_data(stamped("parent", Time::from_seconds(t)))
            .unwrap();
    }

    let parent = timed_frame.get_parent(Time::from_nanos(1.5e9 as i64));
    assert_eq!(parent, Some("parent"));
}

#[test]
fn test_timed_get_closest_with_no_transforms() {
    let timed_frame = TimedFrame::new(Duration::from_seconds(10));

    assert_eq!(timed_frame.find_closest(Time::zero()), (None, None));
}

#[test]
fn test_timed_get_closest_with_1_transform() {
    let mut timed_frame = TimedFrame::new(Duration::from_seconds(10));
    timed_frame
        .insert_data(stamped("parent", Time::from_seconds(73)))
        .unwrap();

    // Tests that when passing Time zero we get back the transform.
    let (older, younger) = timed_frame.find_closest(Time::zero());
    assert_eq!(younger, None);

    let older = older.unwrap();
    assert_eq!(older.header.frame_id, "parent");
    assert_eq!(older.header.stamp, Time::from_seconds(73));

    // Tests that when passing the time of the only transform we get it back.
    let (older, younger) = timed_frame.find_closest(Time::from_seconds(73));
    assert_eq!(younger, None);

    let older = older.unwrap();
    assert_eq!(older.header.frame_id, "parent");
    assert_eq!(older.header.stamp, Time::from_seconds(73));

    // Tests that when passing an arbitrary time we return nothing.
    let (older, younger) = timed_frame.find_closest(Time::from_seconds(74));
    assert_eq!(younger, None);
    assert_eq!(older, None);
}

#[test]
fn test_timed_get_closest_with_more_than_2_transform() {
    let timed_frame = frame_over(3..7);

    // Test find closest with Time zero (which is too old).
    let (older, younger) = timed_frame.find_closest(Time::zero());
    assert_eq!(younger, None);
    assert_eq!(older, None);

    // Test find closest with too old a date.
    let (older, younger) = timed_frame.find_closest(Time::from_seconds(2));
    assert_eq!(younger, None);
    assert_eq!(older, None);

    // Test find closest with too young a date.
    let (older, younger) = timed_frame.find_closest(Time::from_seconds(7));
    assert_eq!(younger, None);
    assert_eq!(older, None);

    // Test find closest with an exact date.
    let (older, younger) = timed_frame.find_closest(Time::from_seconds(4));
    assert_eq!(younger, None);

    let older = older.unwrap();
    assert_eq!(older.header.frame_id, "parent_4");
    assert_eq!(older.header.stamp, Time::from_seconds(4));

    // Test find closest interpolated.
    let (older, younger) = timed_frame.find_closest(Time::from_nanos(4.5e9 as i64));
    let younger = younger.unwrap();
    let older = older.unwrap();

    assert_eq!(younger.header.frame_id, "parent_5");
    assert_eq!(younger.header.stamp, Time::from_seconds(5));
    assert_eq!(older.header.frame_id, "parent_4");
    assert_eq!(older.header.stamp, Time::from_seconds(4));
}

#[test]
fn test_timed_insert_data() {
    let mut timed_frame = TimedFrame::default();

    let res = timed_frame.insert_data(stamped(
        "parent_1",
        Time::from_nanos(73e9 as i64 + DEFAULT_MAX_STORAGE_TIME),
    ));

    assert_eq!(res, Ok(()));
    assert_eq!(timed_frame.len(), 1);
    assert_eq!(timed_frame.samples().first().unwrap().header.frame_id, "parent_1");

    // Test insertion of too old data (past the max storage time).
    let res = timed_frame.insert_data(stamped("parent_2", Time::from_seconds(72)));

    match res {
        Err(reason) => assert!(reason.message().starts_with("TF_OLD_DATA")),
        _ => panic!("Assertion failure: expected Err got Ok"),
    }

    // Test insertion of an older transform.
    let res = timed_frame.insert_data(stamped(
        "parent_3",
        Time::from_nanos(72e9 as i64 + DEFAULT_MAX_STORAGE_TIME),
    ));

    assert_eq!(res, Ok(()));

    let expected_frame_ids = [String::from("parent_1"), String::from("parent_3")];

    for (expected, actual) in expected_frame_ids
        .iter()
        .zip(timed_frame.samples().iter().map(|tf| &tf.header.frame_id))
    {
        assert_eq!(expected, actual);
    }

    // Test insertion of a younger transform.
    let res = timed_frame.insert_data(stamped(
        "parent_4",
        Time::from_nanos(74e9 as i64 + DEFAULT_MAX_STORAGE_TIME),
    ));

    assert_eq!(res, Ok(()));

    let expected_frame_ids = [
        String::from("parent_4"),
        String::from("parent_1"),
        String::from("parent_3"),
    ];

    for (expected, actual) in expected_frame_ids
        .iter()
        .zip(timed_frame.samples().iter().map(|tf| &tf.header.frame_id))
    {
        assert_eq!(expected, actual);
    }

    // Test insertion of a transform with the same stamp.
    let res = timed_frame.insert_data(stamped(
        "parent_5",
        Time::from_nanos(74e9 as i64 + DEFAULT_MAX_STORAGE_TIME),
    ));

    match res {
        Err(reason) => assert!(reason.message().starts_with("TF_REPEATED_DATA")),
        _ => panic!("Assertion failure: expected Err got Ok"),
    }
    assert_eq!(timed_frame.len(), 3);
}

#[test]
fn test_timed_sample_outside_range() {
    let timed_frame = frame_over(5..11);

    assert_eq!(
        timed_frame.sample_at(Time::from_seconds(1)),
        Err(TfError::AttemptedLookupInPast)
    );
    assert_eq!(
        timed_frame.sample_at(Time::from_seconds(12)),
        Err(TfError::AttemptedLookUpInFuture)
    );
}

#[test]
fn test_timed_prunes_aged_samples() {
    let mut timed_frame = TimedFrame::new(Duration::from_seconds(10));
    for t in [100u32, 104, 109] {
        timed_frame
            .insert_data(stamped("parent", Time::from_seconds(t)))
            .unwrap();
    }
    assert_eq!(timed_frame.len(), 3);

    // A sample eleven seconds after the oldest pushes it out of the window.
    timed_frame
        .insert_data(stamped("parent", Time::from_seconds(111)))
        .unwrap();
    assert_eq!(timed_frame.len(), 3);
    assert_eq!(
        timed_frame.samples().last().unwrap().header.stamp,
        Time::from_seconds(104)
    );

    // A sample too old for the window is refused outright.
    let res = timed_frame.insert_data(stamped("parent", Time::from_seconds(90)));
    match res {
        Err(reason) => assert!(reason.message().starts_with("TF_OLD_DATA")),
        _ => panic!("expected the aged sample to be refused"),
    }
}
