use lets_split::codes::{
    KbEvent, KeyboardCode, MediaKey, A, B, C, D, E, F, F1, G, H, LCTRL, LSHIFT, MEDIA_MUTE,
};
use lets_split::grid::{ButtonAction, GridError, GridState};
use lets_split::link::ButtonStatusEvent;

fn k(u: u8) -> KbEvent {
    KbEvent::K(KeyboardCode(u))
}

fn simple(u: u8) -> ButtonAction {
    ButtonAction::Simple(k(u))
}

#[test]
fn layer_override_follows_layer_button() {
    let table = vec![
        ButtonAction::EnableLayer(1),
        ButtonAction::Layered(vec![Some(k(A)), Some(k(F1))]),
    ];
    let mut grid = GridState::new(table, 2).unwrap();
    grid.set_pressed(0, 0, true);
    grid.set_pressed(0, 1, true);
    assert_eq!(grid.resolve(0, 1), Some(k(F1)));
    grid.set_pressed(0, 0, false);
    assert_eq!(grid.resolve(0, 1), Some(k(A)));
}

#[test]
fn highest_active_layer_wins() {
    let table = vec![
        ButtonAction::EnableLayer(1),
        ButtonAction::EnableLayer(2),
        ButtonAction::Layered(vec![Some(k(A)), Some(k(B)), Some(k(C))]),
    ];
    let mut grid = GridState::new(table, 3).unwrap();
    grid.set_pressed(0, 2, true);
    assert_eq!(grid.resolve(0, 2), Some(k(A)));
    grid.set_pressed(0, 0, true);
    assert_eq!(grid.resolve(0, 2), Some(k(B)));
    grid.set_pressed(0, 1, true);
    assert_eq!(grid.resolve(0, 2), Some(k(C)));
    grid.set_pressed(0, 0, false);
    assert_eq!(grid.resolve(0, 2), Some(k(C)));
}

#[test]
fn missing_override_falls_through() {
    let table = vec![
        ButtonAction::EnableLayer(1),
        ButtonAction::EnableLayer(2),
        ButtonAction::Layered(vec![Some(k(A)), Some(k(B)), None]),
        ButtonAction::Layered(vec![None, None, Some(k(C))]),
    ];
    let mut grid = GridState::new(table, 4).unwrap();
    grid.set_pressed(0, 0, true);
    grid.set_pressed(0, 1, true);
    assert_eq!(grid.resolve(0, 2), Some(k(B)));
    grid.set_pressed(0, 1, false);
    assert_eq!(grid.resolve(0, 3), None);
    assert_eq!(grid.resolve(0, 0), None);
}

#[test]
fn report_keeps_first_six_keys() {
    let table = vec![
        simple(A), simple(B), simple(C), simple(LSHIFT),
        simple(D), simple(E), simple(F), simple(G),
        simple(H), simple(LCTRL), simple(A), simple(B),
    ];
    let mut grid = GridState::new(table, 4).unwrap();
    for row in 0..3 {
        for col in 0..4 {
            grid.set_pressed(row, col, true);
        }
    }
    let report = grid.to_report();
    assert_eq!(report.keycodes, [A, B, C, D, E, F]);
    assert_eq!(report.modifier, 0x03);
    assert_eq!(report.reserved, 0);
}

#[test]
fn report_of_nothing_pressed_is_empty() {
    let grid = GridState::new(vec![simple(A), ButtonAction::EnableLayer(1)], 1).unwrap();
    let report = grid.to_report();
    assert_eq!(report.to_bytes(), [0; 8]);
}

#[test]
fn layer_button_emits_nothing() {
    let mut grid = GridState::new(vec![ButtonAction::EnableLayer(1), simple(A)], 2).unwrap();
    grid.set_pressed(0, 0, true);
    assert_eq!(grid.to_report().to_bytes(), [0; 8]);
    grid.set_pressed(0, 1, true);
    assert_eq!(grid.to_report().to_bytes(), [0, 0, A, 0, 0, 0, 0, 0]);
}

#[test]
fn applying_events_twice_changes_nothing_more() {
    let table = vec![simple(A), simple(B), simple(C), simple(D)];
    let events = vec![
        ButtonStatusEvent::new(true, 0, 1),
        ButtonStatusEvent::new(true, 1, 0),
        ButtonStatusEvent::new(false, 0, 1),
        ButtonStatusEvent::new(true, 5, 5),
    ];
    let mut once = GridState::new(table, 2).unwrap();
    once.apply_all(&events);
    let snapshot: Vec<bool> = (0..2)
        .flat_map(|r| (0..2).map(move |c| (r, c)))
        .map(|(r, c)| once.is_pressed(r, c))
        .collect();
    assert_eq!(snapshot, vec![false, false, true, false]);
    once.apply_all(&events);
    let again: Vec<bool> = (0..2)
        .flat_map(|r| (0..2).map(move |c| (r, c)))
        .map(|(r, c)| once.is_pressed(r, c))
        .collect();
    assert_eq!(again, snapshot);
}

#[test]
fn set_pressed_outside_grid_is_ignored() {
    let mut grid = GridState::new(vec![simple(A), simple(B)], 2).unwrap();
    grid.set_pressed(1, 0, true);
    grid.set_pressed(0, 2, true);
    assert!(!grid.is_pressed(0, 0));
    assert!(!grid.is_pressed(0, 1));
    assert_eq!(grid.num_rows(), 1);
    assert_eq!(grid.num_cols(), 2);
}

#[test]
fn table_must_fill_whole_rows() {
    assert_eq!(GridState::new(vec![simple(A), simple(B), simple(C)], 2).err(), Some(GridError::Shape));
    assert_eq!(GridState::new(vec![simple(A)], 0).err(), Some(GridError::Shape));
}

#[test]
fn table_codes_must_fit_the_report() {
    let media = ButtonAction::Simple(KbEvent::M(MediaKey(MEDIA_MUTE)));
    assert_eq!(
        GridState::new(vec![simple(A), media], 2).err(),
        Some(GridError::Unrepresentable { index: 1 })
    );
    assert_eq!(
        GridState::new(vec![simple(0), simple(A)], 2).err(),
        Some(GridError::Unrepresentable { index: 0 })
    );
    let layered = ButtonAction::Layered(vec![Some(k(A)), None, Some(k(0xE8))]);
    assert_eq!(
        GridState::new(vec![simple(A), simple(B), layered, simple(C)], 2).err(),
        Some(GridError::Unrepresentable { index: 2 })
    );
}

#[test]
fn report_carries_highest_layer_code() {
    let table = vec![
        ButtonAction::EnableLayer(1),
        ButtonAction::EnableLayer(2),
        ButtonAction::Layered(vec![Some(k(A)), Some(k(B)), Some(k(C))]),
        simple(D),
    ];
    let mut grid = GridState::new(table, 4).unwrap();
    grid.set_pressed(0, 0, true);
    grid.set_pressed(0, 1, true);
    grid.set_pressed(0, 2, true);
    let report = grid.to_report();
    assert_eq!(report.keycodes, [C, 0, 0, 0, 0, 0]);
    assert_eq!(report.modifier, 0);
}

#[test]
fn halves_merge_the_same_in_any_interleaving() {
    let table: Vec<ButtonAction> = (0..8).map(|_| simple(A)).collect();
    let left = [
        ButtonStatusEvent::new(true, 0, 0),
        ButtonStatusEvent::new(true, 1, 1),
        ButtonStatusEvent::new(false, 0, 0),
    ];
    let right = [
        ButtonStatusEvent::new(true, 0, 2),
        ButtonStatusEvent::new(true, 1, 3),
    ];
    let w1 = vec![left[0], right[0], left[1], right[1], left[2]];
    let w2 = vec![right[0], right[1], left[0], left[1], left[2]];
    let mut g1 = GridState::new(table, 4).unwrap();
    g1.apply_all(&w1);
    let table: Vec<ButtonAction> = (0..8).map(|_| simple(A)).collect();
    let mut g2 = GridState::new(table, 4).unwrap();
    g2.apply_all(&w2);
    for r in 0..2 {
        for c in 0..4 {
            assert_eq!(g1.is_pressed(r, c), g2.is_pressed(r, c));
        }
    }
    assert!(!g1.is_pressed(0, 0));
    assert!(g1.is_pressed(1, 1));
    assert!(g1.is_pressed(0, 2));
    assert!(g1.is_pressed(1, 3));
}
