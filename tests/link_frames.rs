use lets_split::link::{ButtonStatusEvent, LinkReceiver};

#[test]
fn frame_round_trip() {
    let e = ButtonStatusEvent::new(true, 3, 5);
    let bytes = e.encode();
    assert_eq!(bytes, [3, 5, 1, 0]);
    assert_eq!(ButtonStatusEvent::decode(&bytes, 4, 12), Some(e));
}

#[test]
fn release_encodes_flag_zero() {
    let e = ButtonStatusEvent::new(false, 0, 11);
    assert_eq!(e.encode(), [0, 11, 0, 0]);
    assert_eq!(ButtonStatusEvent::decode(&e.encode(), 4, 12), Some(e));
}

#[test]
fn decode_checks_bounds_and_flag() {
    assert_eq!(ButtonStatusEvent::decode(&[4, 0, 1, 0], 4, 12), None);
    assert_eq!(ButtonStatusEvent::decode(&[0, 12, 1, 0], 4, 12), None);
    assert_eq!(ButtonStatusEvent::decode(&[0, 0, 2, 0], 4, 12), None);
    assert_eq!(
        ButtonStatusEvent::decode(&[3, 11, 1, 0], 4, 12),
        Some(ButtonStatusEvent::new(true, 3, 11))
    );
}

#[test]
fn decode_encode_decode_is_stable() {
    let frame = [1, 2, 0, 9];
    let first = ButtonStatusEvent::decode(&frame, 4, 12).unwrap();
    assert_eq!(first, ButtonStatusEvent::new(false, 1, 2));
    let again = ButtonStatusEvent::decode(&first.encode(), 4, 12);
    assert_eq!(again, Some(first));
}

#[test]
fn receiver_resynchronises_after_garbage() {
    let mut rx = LinkReceiver::new(4, 12);
    // The window starts zeroed, so after one byte it reads as a release of (0, 0).
    assert_eq!(rx.push_byte(9), Some(ButtonStatusEvent::new(false, 0, 0)));
    for _ in 0..3 {
        assert_eq!(rx.push_byte(9), None);
    }
    assert_eq!(rx.push_byte(3), None);
    assert_eq!(rx.push_byte(5), None);
    assert_eq!(rx.push_byte(1), None);
    assert_eq!(rx.push_byte(0), Some(ButtonStatusEvent::new(true, 3, 5)));
}

#[test]
fn receiver_reads_window_after_every_byte() {
    let mut rx = LinkReceiver::new(4, 12);
    assert_eq!(rx.push_byte(7), Some(ButtonStatusEvent::new(false, 0, 0)));
    assert_eq!(rx.push_byte(7), None);
    assert_eq!(rx.push_byte(7), None);
    assert_eq!(rx.push_byte(1), None);
    assert_eq!(rx.push_byte(2), None);
    assert_eq!(rx.push_byte(1), None);
    assert_eq!(rx.push_byte(0), Some(ButtonStatusEvent::new(true, 1, 2)));
    // The window slides: [2, 1, 0, 0] reads as a release of (2, 1).
    assert_eq!(rx.push_byte(0), Some(ButtonStatusEvent::new(false, 2, 1)));
}
