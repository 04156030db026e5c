use fuzzpick::input::{chars_to_string, input_step, parse_action, InputState, DEBOUNCE_MS};
use fuzzpick::types::{Action, KeyPress, Movement};

#[test]
fn key_table_maps_plain_keys() {
    assert_eq!(parse_action(KeyPress::Backspace, false), Action::BackSpace);
    assert_eq!(parse_action(KeyPress::Enter, false), Action::Select);
    assert_eq!(parse_action(KeyPress::Esc, false), Action::Exit);
    assert_eq!(parse_action(KeyPress::Up, false), Action::MoveUp);
    assert_eq!(parse_action(KeyPress::Down, false), Action::MoveDown);
    assert_eq!(parse_action(KeyPress::Left, false), Action::MoveLeft);
    assert_eq!(parse_action(KeyPress::Right, false), Action::MoveRight);
    assert_eq!(parse_action(KeyPress::Home, false), Action::MoveBegin);
    assert_eq!(parse_action(KeyPress::End, false), Action::MoveEnd);
    assert_eq!(parse_action(KeyPress::Char('x'), false), Action::Key('x'));
    assert_eq!(parse_action(KeyPress::Other, false), Action::Other);
}

#[test]
fn key_table_maps_control_chords() {
    assert_eq!(parse_action(KeyPress::Char('u'), true), Action::ClearAll);
    assert_eq!(parse_action(KeyPress::Char('c'), true), Action::Exit);
    assert_eq!(parse_action(KeyPress::Char('a'), true), Action::MoveBegin);
    assert_eq!(parse_action(KeyPress::Char('e'), true), Action::MoveEnd);
    assert_eq!(parse_action(KeyPress::Char('b'), true), Action::MoveLeft);
    assert_eq!(parse_action(KeyPress::Char('f'), true), Action::MoveRight);
    assert_eq!(parse_action(KeyPress::Char('p'), true), Action::MoveUp);
    assert_eq!(parse_action(KeyPress::Char('n'), true), Action::MoveDown);
    // an unassigned control chord still inserts the character
    assert_eq!(parse_action(KeyPress::Char('x'), true), Action::Key('x'));
}

#[test]
fn typing_builds_the_query_and_publishes_snapshots() {
    let mut st = InputState::new(0);
    let out = input_step(&mut st, Action::Key('a'), 1000);
    let ui = out.snapshot.expect("a change publishes a snapshot");
    assert_eq!(ui.input, "a");
    assert_eq!(ui.cursor_position, 1);
    assert!(!ui.enter);
    let out = input_step(&mut st, Action::Key('b'), 2000);
    let ui = out.snapshot.expect("a change publishes a snapshot");
    assert_eq!(ui.input, "ab");
    assert_eq!(ui.cursor_position, 2);
}

#[test]
fn editing_keeps_the_cursor_in_bounds() {
    let mut st = InputState::new(0);
    input_step(&mut st, Action::Key('a'), 1000);
    input_step(&mut st, Action::Key('b'), 2000);
    // move left and insert in the middle
    input_step(&mut st, Action::MoveLeft, 3000);
    let out = input_step(&mut st, Action::Key('x'), 4000);
    assert_eq!(out.snapshot.unwrap().input, "axb");
    // begin, end, and clamped moves
    let out = input_step(&mut st, Action::MoveBegin, 5000);
    assert_eq!(out.snapshot.as_ref().unwrap().cursor_position, 0);
    let out = input_step(&mut st, Action::MoveLeft, 6000);
    assert!(out.snapshot.is_none(), "no change publishes nothing");
    let out = input_step(&mut st, Action::MoveEnd, 7000);
    assert_eq!(out.snapshot.unwrap().cursor_position, 3);
    let out = input_step(&mut st, Action::MoveRight, 8000);
    assert!(out.snapshot.is_none());
}

#[test]
fn backspace_removes_before_the_cursor_and_clear_empties() {
    let mut st = InputState::new(0);
    input_step(&mut st, Action::Key('a'), 1000);
    input_step(&mut st, Action::Key('b'), 2000);
    let out = input_step(&mut st, Action::BackSpace, 3000);
    let ui = out.snapshot.unwrap();
    assert_eq!(ui.input, "a");
    assert_eq!(ui.cursor_position, 1);
    let out = input_step(&mut st, Action::ClearAll, 4000);
    let ui = out.snapshot.unwrap();
    assert_eq!(ui.input, "");
    assert_eq!(ui.cursor_position, 0);
    // backspace on the empty query changes nothing
    let out = input_step(&mut st, Action::BackSpace, 5000);
    assert!(out.snapshot.is_none());
}

#[test]
fn navigation_actions_emit_queued_movements_and_bypass_debounce() {
    let mut st = InputState::new(1000);
    let out = input_step(&mut st, Action::Select, 1001);
    assert_eq!(out.movement, Some(Movement::Enter));
    let out = input_step(&mut st, Action::MoveUp, 1002);
    assert_eq!(out.movement, Some(Movement::Up));
    let out = input_step(&mut st, Action::MoveDown, 1003);
    assert_eq!(out.movement, Some(Movement::Down));
    assert!(!out.exit);
    let out = input_step(&mut st, Action::Exit, 1004);
    assert!(out.exit);
}

#[test]
fn rapid_edits_inside_the_debounce_window_forward_at_most_one_change() {
    let mut st = InputState::new(1000);
    let keys = ['a', 'b', 'c', 'd', 'e'];
    let mut forwarded = 0;
    // five edits within 50 ms, debounce window is 100 ms
    for (i, k) in keys.iter().enumerate() {
        let out = input_step(&mut st, Action::Key(*k), 1010 + 10 * i as u64);
        assert!(out.snapshot.is_some(), "every edit republishes the snapshot");
        if out.query_change.is_some() {
            forwarded += 1;
        }
    }
    assert!(forwarded <= 1);
    // once the window has passed, the next edit is forwarded
    let out = input_step(&mut st, Action::Key('f'), 1000 + DEBOUNCE_MS + 200);
    assert_eq!(out.query_change.as_deref(), Some("abcdef"));
}

#[test]
fn cursor_moves_do_not_forward_query_changes() {
    let mut st = InputState::new(0);
    let out = input_step(&mut st, Action::Key('a'), 1000);
    assert_eq!(out.query_change.as_deref(), Some("a"));
    // a cursor-only change republishes the snapshot but forwards nothing
    let out = input_step(&mut st, Action::MoveBegin, 5000);
    assert!(out.snapshot.is_some());
    assert!(out.query_change.is_none());
}

#[test]
fn chars_to_string_assembles_the_characters() {
    assert_eq!(chars_to_string(&vec!['a', 'b', 'c']), "abc");
    assert_eq!(chars_to_string(&Vec::new()), "");
    assert_eq!(chars_to_string(&vec!['é']), "é");
}
