use win_app_switcher::hook::{on_key, step, Event, Key, Mode, State};

#[test]
fn win_tab_session() {
    let mut s = State::idle();
    let a = step(&mut s, Key::Win, false, false);
    assert!(!a.swallow && a.event.is_none());

    let a = step(&mut s, Key::Tab, false, false);
    assert!(a.swallow && a.inject_dummy);
    assert_eq!(a.event, Some(Event::AppNext));

    let a = step(&mut s, Key::Tab, false, true);
    assert_eq!(a.event, Some(Event::AppPrev));
    assert!(!a.inject_dummy, "dummy key only once per session");

    let a = step(&mut s, Key::Tab, true, false);
    assert!(a.swallow && a.event.is_none());

    let a = step(&mut s, Key::Win, true, false);
    assert!(!a.swallow, "WIN up must reach the OS");
    assert_eq!(a.event, Some(Event::Commit));
    assert_eq!(s.mode, Mode::Idle);
}

#[test]
fn win_section_session() {
    let mut s = State::idle();
    step(&mut s, Key::Win, false, false);
    let a = step(&mut s, Key::Section, false, false);
    assert!(a.swallow && a.inject_dummy);
    assert_eq!(a.event, Some(Event::WinNext));
    let a = step(&mut s, Key::Section, false, true);
    assert_eq!(a.event, Some(Event::WinPrev));
    // Tab during a window session switches over to the app switcher.
    let a = step(&mut s, Key::Tab, false, false);
    assert!(a.swallow);
    assert_eq!(a.event, Some(Event::AppNext));
    assert!(!a.inject_dummy, "dummy key already injected by this session");
    assert_eq!(s.mode, Mode::App);
}

#[test]
fn arrows_move_selection_only_in_app_mode() {
    let mut s = State::idle();
    step(&mut s, Key::Win, false, false);
    // No session yet: WIN+arrow snapping must keep working.
    assert!(!step(&mut s, Key::Right, false, false).swallow);
    step(&mut s, Key::Tab, false, false);
    let a = step(&mut s, Key::Right, false, false);
    assert!(a.swallow);
    assert_eq!(a.event, Some(Event::AppNext));
    let a = step(&mut s, Key::Left, false, false);
    assert_eq!(a.event, Some(Event::AppPrev));
    let a = step(&mut s, Key::Left, true, false);
    assert!(a.swallow && a.event.is_none(), "arrow key-up swallowed silently");
    step(&mut s, Key::Win, true, false);

    // Window mode: Left/Right pass through, Up/Down move the selection.
    step(&mut s, Key::Win, false, false);
    step(&mut s, Key::Section, false, false);
    assert!(!step(&mut s, Key::Right, false, false).swallow);
    let a = step(&mut s, Key::Down, false, false);
    assert!(a.swallow);
    assert_eq!(a.event, Some(Event::WinNext));
    let a = step(&mut s, Key::Up, false, false);
    assert_eq!(a.event, Some(Event::WinPrev));
    // ...and Up/Down pass through in app mode (WIN+Up maximize works).
    step(&mut s, Key::Tab, false, false);
    assert!(!step(&mut s, Key::Up, false, false).swallow);
}

#[test]
fn keys_without_win_pass_through() {
    let mut s = State::idle();
    for key in [
        Key::Tab,
        Key::Section,
        Key::Esc,
        Key::Q,
        Key::W,
        Key::Left,
        Key::Right,
        Key::Up,
        Key::Down,
    ] {
        let a = step(&mut s, key, false, false);
        assert!(!a.swallow && a.event.is_none());
        assert_eq!(s.mode, Mode::Idle);
    }
}

#[test]
fn bare_win_tap_stays_untouched() {
    // No session → both WIN events pass, Start menu behaves normally.
    let mut s = State::idle();
    assert!(!step(&mut s, Key::Win, false, false).swallow);
    let a = step(&mut s, Key::Win, true, false);
    assert!(!a.swallow && a.event.is_none());
}

#[test]
fn esc_cancels_and_win_up_does_not_commit() {
    let mut s = State::idle();
    step(&mut s, Key::Win, false, false);
    step(&mut s, Key::Tab, false, false);
    let a = step(&mut s, Key::Esc, false, false);
    assert!(a.swallow);
    assert_eq!(a.event, Some(Event::Cancel));
    assert_eq!(s.mode, Mode::Idle);
    // WIN still held: a new session can start, with a fresh dummy key.
    let a = step(&mut s, Key::Tab, false, false);
    assert!(a.inject_dummy);
    assert_eq!(a.event, Some(Event::AppNext));
    step(&mut s, Key::Esc, false, false);
    let a = step(&mut s, Key::Win, true, false);
    assert!(a.event.is_none(), "cancelled session must not commit");
}

#[test]
fn q_closes_app_only_in_app_mode() {
    let mut s = State::idle();
    step(&mut s, Key::Win, false, false);
    step(&mut s, Key::Section, false, false);
    let a = step(&mut s, Key::Q, false, false);
    assert!(a.swallow && a.event.is_none(), "swallowed but no-op in win mode");
    step(&mut s, Key::Q, true, false);
    step(&mut s, Key::Win, true, false);

    step(&mut s, Key::Win, false, false);
    step(&mut s, Key::Tab, false, false);
    let a = step(&mut s, Key::Q, false, false);
    assert_eq!(a.event, Some(Event::CloseApp));
    let a = step(&mut s, Key::Q, true, false);
    assert!(a.swallow && a.event.is_none());
}

#[test]
fn q_autorepeat_closes_only_one_app() {
    let mut s = State::idle();
    step(&mut s, Key::Win, false, false);
    step(&mut s, Key::Tab, false, false);
    assert_eq!(step(&mut s, Key::Q, false, false).event, Some(Event::CloseApp));
    // Held Q autorepeats: swallowed, but nothing more closes.
    let a = step(&mut s, Key::Q, false, false);
    assert!(a.swallow && a.event.is_none());
    // Release and press again: the next app can be closed.
    step(&mut s, Key::Q, true, false);
    assert_eq!(step(&mut s, Key::Q, false, false).event, Some(Event::CloseApp));

    // Q kept held over a session boundary is not a fresh press either.
    step(&mut s, Key::Win, true, false);
    step(&mut s, Key::Win, false, false);
    step(&mut s, Key::Tab, false, false);
    let a = step(&mut s, Key::Q, false, false);
    assert!(a.swallow && a.event.is_none());
    step(&mut s, Key::Q, true, false);
    assert_eq!(step(&mut s, Key::Q, false, false).event, Some(Event::CloseApp));
}

#[test]
fn w_closes_one_window_only_in_win_mode() {
    let mut s = State::idle();
    step(&mut s, Key::Win, false, false);
    step(&mut s, Key::Tab, false, false);
    let a = step(&mut s, Key::W, false, false);
    assert!(a.swallow && a.event.is_none(), "swallowed but no-op in app mode");
    step(&mut s, Key::W, true, false);
    step(&mut s, Key::Win, true, false);

    step(&mut s, Key::Win, false, false);
    step(&mut s, Key::Section, false, false);
    let a = step(&mut s, Key::W, false, false);
    assert!(a.swallow);
    assert_eq!(a.event, Some(Event::CloseWindow));
    // Held W autorepeats: swallowed, but no second window closes.
    let a = step(&mut s, Key::W, false, false);
    assert!(a.swallow && a.event.is_none());
    let a = step(&mut s, Key::W, true, false);
    assert!(a.swallow && a.event.is_none());
    // A fresh press closes the next one.
    assert_eq!(
        step(&mut s, Key::W, false, false).event,
        Some(Event::CloseWindow)
    );
}

#[test]
fn event_wparam_roundtrip() {
    for ev in [
        Event::AppNext,
        Event::AppPrev,
        Event::WinNext,
        Event::WinPrev,
        Event::Commit,
        Event::Cancel,
        Event::CloseApp,
        Event::CloseWindow,
    ] {
        assert_eq!(Event::from_wparam(ev as usize), Some(ev));
    }
    assert_eq!(Event::from_wparam(999), None);
}

#[test]
fn event_to_wparam_matches_declaration_order() {
    for ev in [
        Event::AppNext,
        Event::AppPrev,
        Event::WinNext,
        Event::WinPrev,
        Event::Commit,
        Event::Cancel,
        Event::CloseApp,
        Event::CloseWindow,
    ] {
        assert_eq!(ev.to_wparam(), ev as usize);
        assert_eq!(Event::from_wparam(ev.to_wparam()), Some(ev));
    }
    assert_eq!(Event::from_wparam(8), None);
}

#[test]
fn section_mid_app_session_is_swallowed_without_event() {
    let mut s = State::idle();
    step(&mut s, Key::Win, false, false);
    step(&mut s, Key::Tab, false, false);
    let a = step(&mut s, Key::Section, false, false);
    assert!(a.swallow && a.event.is_none() && !a.inject_dummy);
    assert_eq!(s.mode, Mode::App);
    // Esc outside a session passes through.
    let mut idle = State::idle();
    step(&mut idle, Key::Win, false, false);
    let a = step(&mut idle, Key::Esc, false, false);
    assert!(!a.swallow && a.event.is_none());
}

#[test]
fn injected_and_unwatched_keys_pass_untouched() {
    let mut s = State::idle();
    on_key(&mut s, false, 0x5B, 0, false, false);
    // Our own injected dummy key and ESC never feed back.
    let a = on_key(&mut s, true, 0x09, 15, false, false);
    assert!(!a.swallow && a.event.is_none() && !a.inject_dummy);
    assert_eq!(s.mode, Mode::Idle);
    let a = on_key(&mut s, true, 0xFF, 0, false, false);
    assert!(!a.swallow && a.event.is_none());
    // An unwatched key passes.
    let a = on_key(&mut s, false, 0x41, 30, false, false);
    assert!(!a.swallow && a.event.is_none());
    // A real TAB with WIN held starts the app session.
    let a = on_key(&mut s, false, 0x09, 15, false, true);
    assert!(a.swallow && a.inject_dummy);
    assert_eq!(a.event, Some(Event::AppPrev));
    assert_eq!(s.mode, Mode::App);
}
