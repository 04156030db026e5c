use fuzzpick::index::MatchEntry;
use fuzzpick::text::{contains_pos, is_mostly_text};
use fuzzpick::types::{Movement, UIStuff};
use fuzzpick::view::{viewport, Controller, ControllerEvent};

fn entries(names: &[&str]) -> Vec<MatchEntry> {
    names.iter().map(|s| (s.to_string(), vec![])).collect()
}

#[test]
fn replacing_the_buffer_reclamps_the_selection_offset() {
    let mut c = Controller::new();
    c.on_results(5, entries(&["a", "b", "c", "d", "e"]));
    c.on_move_up();
    c.on_move_up();
    assert_eq!(c.selected, 2);
    // a buffer of size 3 keeps offset 2 in range
    c.on_results(3, entries(&["a", "b", "c"]));
    assert_eq!(c.selected, 2);
    // a buffer of size 2 reclamps it to the last valid offset
    c.on_results(2, entries(&["a", "b"]));
    assert_eq!(c.selected, 1);
    // an empty buffer resets it to the bottom
    c.on_results(0, entries(&[]));
    assert_eq!(c.selected, 0);
}

#[test]
fn moving_down_at_the_bottom_stays_at_the_bottom() {
    let mut c = Controller::new();
    c.on_results(3, entries(&["a", "b", "c"]));
    assert_eq!(c.selected, 0);
    c.on_move_down();
    assert_eq!(c.selected, 0);
}

#[test]
fn moving_up_has_no_clamp_of_its_own() {
    let mut c = Controller::new();
    c.on_results(2, entries(&["a", "b"]));
    for _ in 0..5 {
        c.on_move_up();
    }
    assert_eq!(c.selected, 5);
}

#[test]
fn enter_picks_counting_from_the_bottom() {
    let mut c = Controller::new();
    c.on_results(3, entries(&["a", "b", "c"]));
    // offset 0 is the last, newest result
    assert_eq!(c.on_enter(10).as_deref(), Some("c"));
    c.on_move_up();
    assert_eq!(c.on_enter(10).as_deref(), Some("b"));
    c.on_move_up();
    assert_eq!(c.on_enter(10).as_deref(), Some("a"));
    // beyond the top the selection clips to the topmost visible row
    c.on_move_up();
    assert_eq!(c.on_enter(10).as_deref(), Some("a"));
}

#[test]
fn enter_sees_only_the_scrolled_viewport() {
    let mut c = Controller::new();
    c.on_results(3, entries(&["a", "b", "c"]));
    // two rows show only the last two results
    assert_eq!(c.on_enter(2).as_deref(), Some("c"));
    c.on_move_up();
    assert_eq!(c.on_enter(2).as_deref(), Some("b"));
    c.on_move_up();
    assert_eq!(c.on_enter(2).as_deref(), Some("b"));
}

#[test]
fn enter_with_no_results_or_no_rows_picks_nothing() {
    let mut c = Controller::new();
    assert_eq!(c.on_enter(10), None);
    c.on_results(2, entries(&["a", "b"]));
    assert_eq!(c.on_enter(0), None);
}

#[test]
fn viewport_pads_short_lists_and_scrolls_long_ones() {
    // three results in ten rows: seven blank rows on top
    let g = viewport(3, 10, 0);
    assert_eq!(g.padding_rows, 7);
    assert_eq!(g.start_idx, 0);
    assert_eq!(g.highlight_row, 9);
    // ten results in three rows: show the last three
    let g = viewport(10, 3, 0);
    assert_eq!(g.padding_rows, 0);
    assert_eq!(g.start_idx, 7);
    assert_eq!(g.highlight_row, 2);
    let g = viewport(10, 3, 1);
    assert_eq!(g.highlight_row, 1);
    // the highlight clips at the top of the viewport
    let g = viewport(10, 3, 99);
    assert_eq!(g.highlight_row, 0);
}

#[test]
fn step_dispatches_events_and_only_enter_selects() {
    let mut c = Controller::new();
    assert_eq!(c.step(ControllerEvent::Results(2, entries(&["a", "b"])), 10), None);
    let ui = UIStuff { input: "ab".to_string(), cursor_position: 2, enter: false };
    assert_eq!(c.step(ControllerEvent::Snapshot(ui.clone()), 10), None);
    assert_eq!(c.snapshot, ui);
    assert_eq!(c.step(ControllerEvent::Move(Movement::Up), 10), None);
    assert_eq!(c.selected, 1);
    assert_eq!(c.step(ControllerEvent::Move(Movement::Down), 10), None);
    assert_eq!(c.selected, 0);
    assert_eq!(
        c.step(ControllerEvent::Move(Movement::Enter), 10).as_deref(),
        Some("b")
    );
}

#[test]
fn hit_positions_are_recognized() {
    let hits = vec![0, 2];
    assert!(contains_pos(&hits, 0));
    assert!(!contains_pos(&hits, 1));
    assert!(contains_pos(&hits, 2));
    assert!(!contains_pos(&hits, 7));
    assert!(!contains_pos(&Vec::new(), 0));
}

#[test]
fn text_probe_wants_one_printable_character() {
    assert!(is_mostly_text(&vec!['a', '\n']));
    assert!(!is_mostly_text(&vec!['\0', '\n', '\t']));
    assert!(!is_mostly_text(&Vec::new()));
    assert!(is_mostly_text(&vec!['\u{9f}', 'x']));
    assert!(!is_mostly_text(&vec!['\u{9f}']));
}
