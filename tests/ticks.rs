use lets_split::codes::{KbEvent, KeyboardCode, A, B, C, D};
use lets_split::dispatch::{
    dispatch_events, handle_events, local_tick, next_frame, receive_byte, EventQueue, HalfConfig,
};
use lets_split::grid::{ButtonAction, GridState};
use lets_split::link::{ButtonStatusEvent, LinkReceiver};
use lets_split::matrix::LocalGrid;

fn simple(u: u8) -> ButtonAction {
    ButtonAction::Simple(KbEvent::K(KeyboardCode(u)))
}

#[test]
fn queue_is_bounded_and_fifo() {
    let mut q = EventQueue::new();
    for i in 0..8u8 {
        assert!(q.push(ButtonStatusEvent::new(true, 0, i)));
    }
    assert!(!q.push(ButtonStatusEvent::new(true, 0, 8)));
    assert_eq!(q.len(), 8);
    for i in 0..8u8 {
        assert_eq!(q.pop(), Some(ButtonStatusEvent::new(true, 0, i)));
    }
    assert_eq!(q.pop(), None);
}

#[test]
fn left_half_shifts_its_events() {
    let left = HalfConfig::from_jumper(true, 0, 6);
    let right = HalfConfig::from_jumper(false, 0, 6);
    let e = ButtonStatusEvent::new(true, 2, 3);
    assert_eq!(left.place(e), Some(ButtonStatusEvent::new(true, 2, 9)));
    assert_eq!(right.place(e), Some(e));
    let far = HalfConfig { is_left: true, drive_offset: 0, sense_offset: 250 };
    assert_eq!(far.place(ButtonStatusEvent::new(true, 0, 6)), None);
}

#[test]
fn overflowing_events_are_dropped() {
    let events: Vec<ButtonStatusEvent> = (0..10u8).map(|i| ButtonStatusEvent::new(true, 0, i)).collect();
    let mut merge = EventQueue::new();
    let mut send = EventQueue::new();
    assert!(send.push(ButtonStatusEvent::new(false, 1, 1)));
    dispatch_events(&events, HalfConfig::from_jumper(false, 0, 0), &mut merge, &mut send);
    assert_eq!(merge.len(), 8);
    assert_eq!(send.len(), 8);
    assert_eq!(send.pop(), Some(ButtonStatusEvent::new(false, 1, 1)));
    for i in 0..7u8 {
        assert_eq!(send.pop(), Some(ButtonStatusEvent::new(true, 0, i)));
    }
}

#[test]
fn tick_merges_locally_and_frames_for_the_peer() {
    let mut matrix = LocalGrid::new(2, 2, 1, false);
    let half = HalfConfig::from_jumper(true, 0, 2);
    let mut merge = EventQueue::new();
    let mut send = EventQueue::new();
    let raw = vec![Some(true), Some(false), Some(true), Some(true)];
    local_tick(&mut matrix, &raw, half, &mut merge, &mut send);

    let table = vec![simple(A), simple(B), simple(C), simple(D), simple(A), simple(B), simple(C), simple(D)];
    let mut status = GridState::new(table, 4).unwrap();
    handle_events(&mut status, &mut merge);
    assert_eq!(merge.len(), 0);
    assert!(status.is_pressed(0, 3));
    assert!(!status.is_pressed(0, 2));
    assert!(!status.is_pressed(1, 2));
    assert_eq!(status.to_report().keycodes, [D, 0, 0, 0, 0, 0]);

    assert_eq!(next_frame(&mut send), Some([0, 3, 1, 0]));
    assert_eq!(next_frame(&mut send), None);
}

#[test]
fn peer_bytes_reach_the_merge_queue() {
    let mut rx = LinkReceiver::new(4, 12);
    let mut merge = EventQueue::new();
    let mut last = None;
    for b in [9u8, 2, 7, 1, 0] {
        last = receive_byte(&mut rx, b, &mut merge);
    }
    assert_eq!(last, Some(ButtonStatusEvent::new(true, 2, 7)));
    // The first byte completes the zeroed window: a release of (0, 0).
    assert_eq!(merge.len(), 2);
    assert_eq!(merge.pop(), Some(ButtonStatusEvent::new(false, 0, 0)));
    assert_eq!(merge.pop(), Some(ButtonStatusEvent::new(true, 2, 7)));
}
