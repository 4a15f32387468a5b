use rael_obj::depth::DepthBuffer;

// The presentation layer encodes a camera-space depth as the bit pattern of
// the positive IEEE 754 single, whose unsigned order agrees with the numeric
// order; these tests drive the buffer with the same encoding.
fn key(z: f32) -> u32 {
    z.to_bits()
}

fn far() -> u32 {
    f32::INFINITY.to_bits()
}

#[test]
fn positive_float_bits_preserve_order() {
    assert!(key(0.5) < key(1.5));
    assert!(key(1.5) < key(2.5));
    assert!(key(2.5) < far());
}

#[test]
fn fresh_buffer_is_all_far() {
    let buf = DepthBuffer::new(4, 3, far()).unwrap();
    assert_eq!(buf.width(), 4);
    assert_eq!(buf.height(), 3);
    for y in 0..3 {
        for x in 0..4 {
            assert_eq!(buf.depth_at(x, y), Some(far()));
        }
    }
}

#[test]
fn nearer_wins_submitted_after_farther() {
    let mut buf = DepthBuffer::new(4, 4, far()).unwrap();
    assert!(buf.test_and_set(2, 1, key(2.5)));
    assert!(buf.test_and_set(2, 1, key(1.5)));
    assert_eq!(buf.depth_at(2, 1), Some(key(1.5)));
}

#[test]
fn nearer_wins_submitted_before_farther() {
    let mut buf = DepthBuffer::new(4, 4, far()).unwrap();
    assert!(buf.test_and_set(2, 1, key(1.5)));
    assert!(!buf.test_and_set(2, 1, key(2.5)));
    assert_eq!(buf.depth_at(2, 1), Some(key(1.5)));
}

#[test]
fn equal_depth_keeps_first_writer() {
    let mut buf = DepthBuffer::new(4, 4, far()).unwrap();
    assert!(buf.test_and_set(0, 0, key(1.5)));
    assert!(!buf.test_and_set(0, 0, key(1.5)));
}

#[test]
fn out_of_viewport_submissions_are_rejected() {
    let mut buf = DepthBuffer::new(4, 4, far()).unwrap();
    assert!(!buf.test_and_set(-1, 0, key(1.0)));
    assert!(!buf.test_and_set(0, -3, key(1.0)));
    assert!(!buf.test_and_set(4, 0, key(1.0)));
    assert!(!buf.test_and_set(0, 4, key(1.0)));
    assert_eq!(buf.depth_at(0, 0), Some(far()));
    assert_eq!(buf.depth_at(-1, 0), None);
    assert_eq!(buf.depth_at(4, 0), None);
}

#[test]
fn pixels_are_independent() {
    let mut buf = DepthBuffer::new(3, 2, far()).unwrap();
    assert!(buf.test_and_set(1, 0, key(1.0)));
    assert_eq!(buf.depth_at(0, 0), Some(far()));
    assert_eq!(buf.depth_at(1, 1), Some(far()));
    assert_eq!(buf.depth_at(1, 0), Some(key(1.0)));
}

#[test]
fn oversized_buffer_is_rejected() {
    assert!(DepthBuffer::new(usize::MAX, 2, far()).is_none());
    assert!(DepthBuffer::new(0, 0, far()).is_some());
}
