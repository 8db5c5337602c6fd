use lets_split::debounce::DebouncedPin;
use lets_split::link::ButtonStatusEvent;
use lets_split::matrix::LocalGrid;

fn frame(cells: usize, pressed: &[usize], level: bool) -> Vec<Option<bool>> {
    (0..cells)
        .map(|i| Some(if pressed.contains(&i) { level } else { !level }))
        .collect()
}

#[test]
fn debounce_flips_after_threshold_samples() {
    let mut pin = DebouncedPin::new(2, true);
    assert!(!pin.is_pressed());
    assert!(!pin.sample(true));
    assert!(!pin.is_pressed());
    assert!(pin.sample(true));
    assert!(pin.is_pressed());
    assert!(!pin.sample(true));
    assert!(pin.is_pressed());
}

#[test]
fn debounce_bounce_resets_the_run() {
    let mut pin = DebouncedPin::new(3, true);
    assert!(!pin.sample(true));
    assert!(!pin.sample(true));
    assert!(!pin.sample(false));
    assert!(!pin.sample(true));
    assert!(!pin.sample(true));
    assert!(pin.sample(true));
    assert!(pin.is_pressed());
}

#[test]
fn debounce_changes_spaced_by_threshold() {
    let mut pin = DebouncedPin::new(2, false);
    let samples = [false, false, true, false, false, true, true, false, true, true];
    let mut changes = Vec::new();
    for (k, s) in samples.iter().enumerate() {
        if pin.sample(*s) {
            changes.push(k + 1);
        }
    }
    assert_eq!(changes, vec![2, 7]);
    for w in changes.windows(2) {
        assert!(w[1] - w[0] >= 2);
    }
}

#[test]
fn debounce_threshold_one_follows_raw() {
    let mut pin = DebouncedPin::new(1, false);
    assert!(pin.sample(false));
    assert!(pin.is_pressed());
    assert!(pin.sample(true));
    assert!(!pin.is_pressed());
}

#[test]
fn press_and_release_give_two_events() {
    let mut grid = LocalGrid::new(2, 2, 2, true);
    let mut events = Vec::new();
    for _ in 0..3 {
        events.extend(grid.get_events(&frame(4, &[], true)));
    }
    for _ in 0..3 {
        events.extend(grid.get_events(&frame(4, &[0], true)));
    }
    for _ in 0..3 {
        events.extend(grid.get_events(&frame(4, &[], true)));
    }
    assert_eq!(
        events,
        vec![
            ButtonStatusEvent::new(true, 0, 0),
            ButtonStatusEvent::new(false, 0, 0),
        ]
    );
}

#[test]
fn scan_reports_in_drive_major_order() {
    let mut grid = LocalGrid::new(2, 3, 1, false);
    let events = grid.get_events(&frame(6, &[3, 2], false));
    assert_eq!(
        events,
        vec![
            ButtonStatusEvent { drive: 0, sense: 2, pressed: true },
            ButtonStatusEvent { drive: 1, sense: 0, pressed: true },
        ]
    );
}

#[test]
fn failed_read_changes_nothing() {
    let mut grid = LocalGrid::new(1, 2, 1, true);
    let events = grid.get_events(&vec![None, None]);
    assert!(events.is_empty());
    let events = grid.get_events(&vec![None, Some(true)]);
    assert_eq!(events, vec![ButtonStatusEvent::new(true, 0, 1)]);
}
