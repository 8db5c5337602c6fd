use lets_split::codes::{
    KbEvent, KeyboardCode, MediaKey, A, B, LCTRL, LSHIFT, MEDIA_PLAY_PAUSE, RGUI, SPACE,
};
use lets_split::report::{next_submit_step, KeyboardReport, SubmitOutcome, SubmitStep};

#[test]
fn modifiers_set_bits_not_slots() {
    let r = KeyboardReport::from_usages(&vec![LSHIFT, A, RGUI, LCTRL]);
    assert_eq!(r.modifier, 0x83);
    assert_eq!(r.keycodes, [A, 0, 0, 0, 0, 0]);
    assert_eq!(r.to_bytes(), [0x83, 0, A, 0, 0, 0, 0, 0]);
}

#[test]
fn seventh_key_is_dropped() {
    let codes = vec![4, 5, 6, 7, 8, 9, 10, 11];
    let r = KeyboardReport::from_usages(&codes);
    assert_eq!(r.keycodes, [4, 5, 6, 7, 8, 9]);
    assert_eq!(r.modifier, 0);
}

#[test]
fn repeated_key_takes_two_slots() {
    let r = KeyboardReport::from_usages(&vec![SPACE, SPACE, B]);
    assert_eq!(r.keycodes, [SPACE, SPACE, B, 0, 0, 0]);
}

#[test]
fn empty_report() {
    let r = KeyboardReport::empty();
    assert_eq!(r.to_bytes(), [0; 8]);
}

#[test]
fn submit_steps() {
    assert_eq!(next_submit_step(SubmitOutcome::Accepted), SubmitStep::Done);
    assert_eq!(next_submit_step(SubmitOutcome::Full), SubmitStep::Retry);
    assert_eq!(next_submit_step(SubmitOutcome::Fault), SubmitStep::Halt);
}

#[test]
fn event_kinds_convert() {
    let k = KbEvent::K(KeyboardCode(A));
    let m = KbEvent::M(MediaKey(MEDIA_PLAY_PAUSE));
    assert_eq!(KeyboardCode::try_from(k), Ok(KeyboardCode(A)));
    assert_eq!(KeyboardCode::try_from(m), Err(()));
    assert_eq!(MediaKey::try_from(m), Ok(MediaKey(MEDIA_PLAY_PAUSE)));
    assert_eq!(MediaKey::try_from(k), Err(()));
    assert!(k.fits_keyboard_report());
    assert!(!m.fits_keyboard_report());
    assert!(KeyboardCode(LSHIFT).is_modifier());
    assert!(!KeyboardCode(A).is_modifier());
}
