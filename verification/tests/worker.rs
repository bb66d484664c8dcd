use lefthk_core::chord::Chord;
use lefthk_core::config::Keybind;
use lefthk_core::worker::{Action, DisplayEvent, Mode, Status, Worker};

fn kb(key: &str, modifier: &[&str], command: &str) -> Keybind {
    Keybind {
        key: String::from(key),
        modifier: modifier.iter().map(|m| String::from(*m)).collect(),
        command: String::from(command),
    }
}

#[test]
fn new_worker_is_idle_and_continuing() {
    let w = Worker::new(vec![kb("A", &[], "X")], Mode::Pipe);
    assert_eq!(w.status, Status::Continue);
    assert!(w.chord_ctx.keybinds.is_none());
    assert!(!w.chord_ctx.elapsed);
}

#[test]
fn chord_new_is_idle() {
    let c = Chord::new();
    assert!(c.keybinds.is_none());
    assert!(!c.elapsed);
}

#[test]
fn unelapsed_chord_is_left_unchanged() {
    let mut w = Worker::new(vec![kb("A", &[], "X")], Mode::Pipe);
    w.chord_ctx.keybinds = Some(vec![kb("B", &[], "Y")]);
    w.chord_ctx.elapsed = false;
    w.evaluate_chord_pipe();
    assert!(w.chord_ctx.keybinds.is_some());
    assert!(!w.chord_ctx.elapsed);
}

#[test]
fn elapsed_chord_resets_to_idle_in_relay_mode() {
    let mut w = Worker::new(vec![kb("A", &[], "X")], Mode::Pipe);
    w.chord_ctx.keybinds = Some(vec![kb("B", &[], "Y")]);
    w.chord_ctx.elapsed = true;
    w.evaluate_chord_pipe();
    assert!(w.chord_ctx.keybinds.is_none());
    assert!(!w.chord_ctx.elapsed);
}

#[test]
fn elapsed_chord_regrabs_exactly_once_in_grab_mode() {
    let mut w = Worker::new(vec![kb("A", &[], "X")], Mode::Xlib);
    w.chord_ctx.elapsed = true;
    assert!(w.evaluate_chord_xlib());
    assert!(w.chord_ctx.keybinds.is_none());
    assert!(!w.chord_ctx.elapsed);
    // A second evaluation finds the chord idle and asks for no regrab.
    assert!(!w.evaluate_chord_xlib());
}

#[test]
fn unelapsed_chord_regrabs_never_in_grab_mode() {
    let mut w = Worker::new(vec![kb("A", &[], "X")], Mode::Xlib);
    w.chord_ctx.keybinds = Some(vec![kb("B", &[], "Y")]);
    assert!(!w.evaluate_chord_xlib());
    assert!(w.chord_ctx.keybinds.is_some());
}

#[test]
fn resolves_first_matching_keybind() {
    let w = Worker::new(vec![kb("A", &[], "X"), kb("B", &["Shift"], "Y")], Mode::Pipe);
    let translations = vec![Some((0, 1)), Some((1, 2))];
    let hit = w.get_keybind((1, 2), &translations).unwrap();
    assert_eq!(hit.command, "Y");
}

#[test]
fn tie_break_returns_earlier_candidate() {
    // Two keybinds translating to the same (mask, keysym): the one
    // declared first wins.
    let w = Worker::new(vec![kb("A", &[], "X"), kb("A", &[], "Y")], Mode::Pipe);
    let translations = vec![Some((0, 1)), Some((0, 1))];
    let hit = w.get_keybind((0, 1), &translations).unwrap();
    assert_eq!(hit.command, "X");
}

#[test]
fn untranslatable_candidate_is_skipped() {
    let w = Worker::new(vec![kb("Unknown", &[], "X"), kb("B", &[], "Y")], Mode::Pipe);
    let translations = vec![None, Some((0, 9))];
    let hit = w.get_keybind((0, 9), &translations).unwrap();
    assert_eq!(hit.command, "Y");
}

#[test]
fn active_chord_restricts_resolution_to_subset() {
    // The full table holds B translating to (1, 2); the active chord
    // subset holds only A, so an input matching B resolves to nothing.
    let mut w = Worker::new(vec![kb("A", &[], "X"), kb("B", &["Shift"], "Y")], Mode::Pipe);
    w.chord_ctx.keybinds = Some(vec![kb("A", &[], "X")]);
    let subset_translations = vec![Some((0, 1))];
    assert!(w.get_keybind((1, 2), &subset_translations).is_none());
    // The same input against the full table does resolve.
    w.chord_ctx.keybinds = None;
    let full_translations = vec![Some((0, 1)), Some((1, 2))];
    assert_eq!(w.get_keybind((1, 2), &full_translations).unwrap().command, "Y");
}

#[test]
fn key_presses_dispatch_to_bound_commands() {
    // Keybind A with no modifiers runs X; keybind B with Shift runs Y;
    // an unbound observation reports a miss and runs nothing.
    let w = Worker::new(vec![kb("A", &[], "X"), kb("B", &["Shift"], "Y")], Mode::Pipe);
    let translations = vec![Some((0, 1)), Some((1, 2))];
    let a = w.handle_key_press(0, 1, &translations);
    assert_eq!(a, Action::Execute { command: String::from("X") });
    let b = w.handle_key_press(1, 2, &translations);
    assert_eq!(b, Action::Execute { command: String::from("Y") });
    let miss = w.handle_key_press(0, 9, &translations);
    assert_eq!(miss, Action::CommandNotFound);
}

#[test]
fn display_events_dispatch_by_kind() {
    let w = Worker::new(vec![kb("A", &[], "X")], Mode::Xlib);
    let translations = vec![Some((0, 1))];
    let press = w.handle_event(&DisplayEvent::KeyPress { mask: 0, keysym: 1 }, &translations);
    assert_eq!(press, Action::Execute { command: String::from("X") });
    let modifier = w.handle_event(&DisplayEvent::MappingNotify { request: 0 }, &translations);
    assert_eq!(modifier, Action::RefreshMapping);
    let keyboard = w.handle_event(&DisplayEvent::MappingNotify { request: 1 }, &translations);
    assert_eq!(keyboard, Action::RefreshMapping);
    let pointer = w.handle_event(&DisplayEvent::MappingNotify { request: 2 }, &translations);
    assert_eq!(pointer, Action::Nothing);
    let other = w.handle_event(&DisplayEvent::Other, &translations);
    assert_eq!(other, Action::Nothing);
}
