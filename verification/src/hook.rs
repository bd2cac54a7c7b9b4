//! The WH_KEYBOARD_LL state machine.
//!
//! Key facts the logic encodes:
//! - WIN down/up always pass through, so WIN+L, WIN+D … keep working and the
//!   OS never sees WIN stuck down. Only TAB / § / Q / W / ESC / arrows are
//!   swallowed, and only during a switcher session.
//! - On session start a dummy key (VK 0xFF, unassigned) is injected while WIN
//!   is still down, so Windows sees WIN as a combo, not a tap: the Start menu
//!   never opens on release.
use vstd::prelude::*;

verus! {

#[derive(Debug, Clone, Copy, PartialEq, Eq, Structural)]
pub enum Mode {
    /// No switcher session.
    Idle,
    App,
    Win,
}

/// Keys the hook watches; everything else passes through untouched.
#[derive(Debug, Clone, Copy, PartialEq, Eq, Structural)]
pub enum Key {
    Win,
    Tab,
    /// The key left of digit 1, identified by scan code 41 (§ on FI/SE, ` on US).
    Section,
    Esc,
    Q,
    W,
    Left,
    Right,
    Up,
    Down,
}

/// Posted to the main thread as the wparam of the switcher message.
#[derive(Debug, Clone, Copy, PartialEq, Eq, Structural)]
pub enum Event {
    AppNext,
    AppPrev,
    WinNext,
    WinPrev,
    /// WIN released with a session active: activate the selection.
    Commit,
    /// ESC pressed: close the session without switching.
    Cancel,
    /// Q pressed in app mode: close all windows of the selected app.
    CloseApp,
    /// W pressed in win mode: close only the selected window.
    CloseWindow,
}

/// The wparam number of each event: its position in the declaration.
pub open spec fn wparam_of(e: Event) -> nat {
    match e {
        Event::AppNext => 0,
        Event::AppPrev => 1,
        Event::WinNext => 2,
        Event::WinPrev => 3,
        Event::Commit => 4,
        Event::Cancel => 5,
        Event::CloseApp => 6,
        Event::CloseWindow => 7,
    }
}

impl Event {
    /// The wparam this event is posted with.
    pub fn to_wparam(self) -> (w: usize)
        ensures
            w == wparam_of(self),
    {
        match self {
            Event::AppNext => 0,
            Event::AppPrev => 1,
            Event::WinNext => 2,
            Event::WinPrev => 3,
            Event::Commit => 4,
            Event::Cancel => 5,
            Event::CloseApp => 6,
            Event::CloseWindow => 7,
        }
    }

    /// The event posted with wparam `w`, or `None` for a number no event has.
    pub fn from_wparam(w: usize) -> (r: Option<Event>)
        ensures
            r matches Some(e) ==> wparam_of(e) == w,
            r is None <==> w > 7,
    {
        match w {
            0 => Some(Event::AppNext),
            1 => Some(Event::AppPrev),
            2 => Some(Event::WinNext),
            3 => Some(Event::WinPrev),
            4 => Some(Event::Commit),
            5 => Some(Event::Cancel),
            6 => Some(Event::CloseApp),
            7 => Some(Event::CloseWindow),
            _ => None,
        }
    }
}

/// Decoding a posted event's wparam gives the event back.
pub proof fn lemma_wparam_roundtrip(e: Event)
    ensures
        wparam_of(e) <= 7,
        forall|f: Event| wparam_of(f) == wparam_of(e) ==> f == e,
{
}

/// The watched key for a hook event: scan code 41 is always the key left of
/// digit 1, whatever its virtual-key code; otherwise the virtual-key code
/// (its low 16 bits) picks WIN (left or right), TAB, ESC, Q, W or an arrow.
pub open spec fn map_key_spec(vk: u32, scan: u32) -> Option<Key> {
    if scan == 41 {
        Some(Key::Section)
    } else {
        let v = vk % 0x10000;
        if v == 0x5B || v == 0x5C {
            Some(Key::Win)
        } else if v == 0x09 {
            Some(Key::Tab)
        } else if v == 0x1B {
            Some(Key::Esc)
        } else if v == 0x51 {
            Some(Key::Q)
        } else if v == 0x57 {
            Some(Key::W)
        } else if v == 0x25 {
            Some(Key::Left)
        } else if v == 0x27 {
            Some(Key::Right)
        } else if v == 0x26 {
            Some(Key::Up)
        } else if v == 0x28 {
            Some(Key::Down)
        } else {
            None
        }
    }
}

/// The watched key behind a virtual-key code and scan code, if any.
pub fn map_key(vk: u32, scan: u32) -> (r: Option<Key>)
    ensures
        r == map_key_spec(vk, scan),
{
    if scan == 41 {
        return Some(Key::Section);
    }
    match vk % 0x10000 {
        0x5B | 0x5C => Some(Key::Win),
        0x09 => Some(Key::Tab),
        0x1B => Some(Key::Esc),
        0x51 => Some(Key::Q),
        0x57 => Some(Key::W),
        0x25 => Some(Key::Left),
        0x27 => Some(Key::Right),
        0x26 => Some(Key::Up),
        0x28 => Some(Key::Down),
        _ => None,
    }
}

#[derive(Debug, Clone, Copy)]
pub struct State {
    pub mode: Mode,
    pub win_down: bool,
    /// Q/W held down — their autorepeat must not close one thing per repeat.
    pub q_down: bool,
    pub w_down: bool,
}

impl State {
    /// The state before any key was seen: no session, nothing held.
    pub fn idle() -> (s: State)
        ensures
            s == (State { mode: Mode::Idle, win_down: false, q_down: false, w_down: false }),
    {
        State { mode: Mode::Idle, win_down: false, q_down: false, w_down: false }
    }
}

pub struct Actions {
    pub swallow: bool,
    pub event: Option<Event>,
    pub inject_dummy: bool,
}

pub open spec fn pass() -> Actions {
    Actions { swallow: false, event: None, inject_dummy: false }
}

pub open spec fn swallow_with(event: Option<Event>) -> Actions {
    Actions { swallow: true, event, inject_dummy: false }
}

/// The transition of the hook's state machine for one key event. Q and W
/// track whether they are held across sessions, so an autorepeat is never a
/// fresh press.
pub open spec fn step_spec(s: State, key: Key, up: bool, shift: bool) -> (State, Actions) {
    let was_down = if key == Key::Q {
        s.q_down
    } else if key == Key::W {
        s.w_down
    } else {
        false
    };
    let t = State {
        q_down: if key == Key::Q { !up } else { s.q_down },
        w_down: if key == Key::W { !up } else { s.w_down },
        ..s
    };
    let repeat = !up && was_down;
    let session = t.mode != Mode::Idle;
    if key == Key::Win && !up {
        (State { win_down: true, ..t }, pass())
    } else if key == Key::Win && up {
        (
            State { win_down: false, mode: Mode::Idle, ..t },
            Actions { event: if session { Some(Event::Commit) } else { None }, ..pass() },
        )
    } else if key == Key::Tab && !up && t.win_down {
        (
            State { mode: Mode::App, ..t },
            Actions {
                swallow: true,
                event: Some(if shift { Event::AppPrev } else { Event::AppNext }),
                inject_dummy: !session,
            },
        )
    } else if key == Key::Section && !up && t.win_down {
        let mode = if session { t.mode } else { Mode::Win };
        (
            State { mode, ..t },
            Actions {
                swallow: true,
                event: if mode == Mode::Win {
                    Some(if shift { Event::WinPrev } else { Event::WinNext })
                } else {
                    None
                },
                inject_dummy: !session,
            },
        )
    } else if (key == Key::Tab || key == Key::Section) && up && session {
        (t, swallow_with(None))
    } else if key == Key::Esc && !up && session {
        (State { mode: Mode::Idle, ..t }, swallow_with(Some(Event::Cancel)))
    } else if key == Key::Q && session {
        (t, swallow_with(if !up && !repeat && t.mode == Mode::App { Some(Event::CloseApp) } else { None }))
    } else if key == Key::W && session {
        (t, swallow_with(if !up && !repeat && t.mode == Mode::Win { Some(Event::CloseWindow) } else { None }))
    } else if (key == Key::Left || key == Key::Right) && t.mode == Mode::App {
        (t, swallow_with(if up { None } else if key == Key::Left { Some(Event::AppPrev) } else { Some(Event::AppNext) }))
    } else if (key == Key::Up || key == Key::Down) && t.mode == Mode::Win {
        (t, swallow_with(if up { None } else if key == Key::Up { Some(Event::WinPrev) } else { Some(Event::WinNext) }))
    } else {
        (t, pass())
    }
}

/// Feed one key event (`up` for a release, `shift` whether SHIFT is held)
/// to the state machine: it moves to its next state and says whether to
/// swallow the key, which event to post and whether to inject the dummy key.
pub fn step(s: &mut State, key: Key, up: bool, shift: bool) -> (a: Actions)
    ensures
        (*final(s), a) == step_spec(*old(s), key, up, shift),
{
    // Tracked across sessions: a Q/W already held when a session starts (or
    // held over a session boundary) is not a fresh press either.
    let was_down = match key {
        Key::Q => {
            let was = s.q_down;
            s.q_down = !up;
            was
        },
        Key::W => {
            let was = s.w_down;
            s.w_down = !up;
            was
        },
        _ => false,
    };
    let repeat = !up && was_down;
    let pass = Actions { swallow: false, event: None, inject_dummy: false };
    let session = s.mode != Mode::Idle;
    if key == Key::Win && !up {
        s.win_down = true;
        pass
    } else if key == Key::Win && up {
        s.win_down = false;
        s.mode = Mode::Idle;
        Actions { event: if session { Some(Event::Commit) } else { None }, ..pass }
    } else if key == Key::Tab && !up && s.win_down {
        // TAB always means the app switcher: it starts a session, and
        // mid WIN+§ session it switches over (win session discarded).
        s.mode = Mode::App;
        Actions {
            swallow: true,
            event: Some(if shift { Event::AppPrev } else { Event::AppNext }),
            inject_dummy: !session,
        }
    } else if key == Key::Section && !up && s.win_down {
        if !session {
            s.mode = Mode::Win;
        }
        let event = if s.mode == Mode::Win {
            Some(if shift { Event::WinPrev } else { Event::WinNext })
        } else {
            None
        };
        Actions { swallow: true, event, inject_dummy: !session }
    } else if (key == Key::Tab || key == Key::Section) && up && session {
        Actions { swallow: true, ..pass }
    } else if key == Key::Esc && !up && session {
        s.mode = Mode::Idle;
        Actions { swallow: true, event: Some(Event::Cancel), inject_dummy: false }
    } else if key == Key::Q && session {
        // Swallow Q/W both ways during any session (WIN+Q would open Search,
        // WIN+W the widgets pane). One close per physical press: autorepeat
        // closes nothing more until a key-up is seen.
        let fresh = !up && !repeat && s.mode == Mode::App;
        Actions { swallow: true, event: if fresh { Some(Event::CloseApp) } else { None }, ..pass }
    } else if key == Key::W && session {
        let fresh = !up && !repeat && s.mode == Mode::Win;
        Actions { swallow: true, event: if fresh { Some(Event::CloseWindow) } else { None }, ..pass }
    } else if (key == Key::Left || key == Key::Right) && s.mode == Mode::App {
        // Arrows move the selection (Left/Right in the app switcher, Up/Down
        // in the window list); outside a session they pass through so
        // WIN+arrow window snapping keeps working.
        let event = if up {
            None
        } else if key == Key::Left {
            Some(Event::AppPrev)
        } else {
            Some(Event::AppNext)
        };
        Actions { swallow: true, event, ..pass }
    } else if (key == Key::Up || key == Key::Down) && s.mode == Mode::Win {
        let event = if up {
            None
        } else if key == Key::Up {
            Some(Event::WinPrev)
        } else {
            Some(Event::WinNext)
        };
        Actions { swallow: true, event, ..pass }
    } else {
        pass
    }
}


/// One keyboard-hook event as the hook sees it: events injected by the
/// switcher itself (its dummy key, its ESC) and keys it does not watch pass
/// through untouched and leave the state as it was; a watched key is fed to
/// [`step`].
pub open spec fn on_key_spec(s: State, injected: bool, vk: u32, scan: u32, up: bool, shift: bool) -> (State, Actions) {
    if injected {
        (s, pass())
    } else {
        match map_key_spec(vk, scan) {
            Some(key) => step_spec(s, key, up, shift),
            None => (s, pass()),
        }
    }
}

/// Handle one keyboard-hook event: `injected` as the hook reports it,
/// the virtual-key and scan codes, whether it is a release, and whether
/// SHIFT is held.
pub fn on_key(s: &mut State, injected: bool, vk: u32, scan: u32, up: bool, shift: bool) -> (a: Actions)
    ensures
        (*final(s), a) == on_key_spec(*old(s), injected, vk, scan, up, shift),
{
    if injected {
        return Actions { swallow: false, event: None, inject_dummy: false };
    }
    match map_key(vk, scan) {
        Some(key) => step(s, key, up, shift),
        None => Actions { swallow: false, event: None, inject_dummy: false },
    }
}

/// The switcher's own injected keys never feed back into it: they pass
/// through and change nothing.
pub proof fn lemma_injected_keys_pass(s: State, vk: u32, scan: u32, up: bool, shift: bool)
    ensures
        on_key_spec(s, true, vk, scan, up, shift) == (s, pass()),
{
}

/// With WIN held, TAB always drives the app switcher: SHIFT+TAB steps
/// back, TAB forward, the key is swallowed and the session is an app
/// session (a window session switches over).
pub proof fn lemma_tab_steps_apps(s: State, shift: bool)
    requires
        s.win_down,
    ensures
        step_spec(s, Key::Tab, false, shift).1.event == Some(
            if shift {
                Event::AppPrev
            } else {
                Event::AppNext
            },
        ),
        step_spec(s, Key::Tab, false, shift).1.swallow,
        step_spec(s, Key::Tab, false, shift).0.mode == Mode::App,
{
}

/// With WIN held and no app session running, every § press steps the
/// window list — SHIFT+§ back, § forward — the first one starting a window
/// session; during an app session § is swallowed and does nothing.
pub proof fn lemma_section_steps_windows(s: State, shift: bool)
    requires
        s.win_down,
    ensures
        s.mode != Mode::App ==> step_spec(s, Key::Section, false, shift).1.event == Some(
            if shift {
                Event::WinPrev
            } else {
                Event::WinNext
            },
        ) && step_spec(s, Key::Section, false, shift).0.mode == Mode::Win,
        s.mode == Mode::App ==> step_spec(s, Key::Section, false, shift).1.event is None
            && step_spec(s, Key::Section, false, shift).0.mode == Mode::App,
        step_spec(s, Key::Section, false, shift).1.swallow,
{
}

/// The arrows move the selection: Left back and Right forward in the app
/// switcher, Up back and Down forward in the window list, whatever SHIFT
/// says; their key-ups are swallowed silently.
pub proof fn lemma_arrows_step_the_selection(s: State, up: bool, shift: bool)
    ensures
        s.mode == Mode::App ==> step_spec(s, Key::Left, up, shift).1 == (Actions {
            swallow: true,
            event: if up { None } else { Some(Event::AppPrev) },
            inject_dummy: false,
        }) && step_spec(s, Key::Right, up, shift).1 == (Actions {
            swallow: true,
            event: if up { None } else { Some(Event::AppNext) },
            inject_dummy: false,
        }),
        s.mode == Mode::Win ==> step_spec(s, Key::Up, up, shift).1 == (Actions {
            swallow: true,
            event: if up { None } else { Some(Event::WinPrev) },
            inject_dummy: false,
        }) && step_spec(s, Key::Down, up, shift).1 == (Actions {
            swallow: true,
            event: if up { None } else { Some(Event::WinNext) },
            inject_dummy: false,
        }),
        s.mode == Mode::Idle ==> !step_spec(s, Key::Left, up, shift).1.swallow
            && !step_spec(s, Key::Right, up, shift).1.swallow && !step_spec(s, Key::Up, up, shift).1.swallow
            && !step_spec(s, Key::Down, up, shift).1.swallow,
{
}

/// ESC during a session cancels it: the key is swallowed, Cancel posted and
/// the session over.
pub proof fn lemma_escape_cancels(s: State, shift: bool)
    requires
        s.mode != Mode::Idle,
    ensures
        step_spec(s, Key::Esc, false, shift).1 == (Actions {
            swallow: true,
            event: Some(Event::Cancel),
            inject_dummy: false,
        }),
        step_spec(s, Key::Esc, false, shift).0.mode == Mode::Idle,
{
}

/// A fresh Q press closes the selected app in the app switcher, a fresh W
/// press the selected window in the window list; both are swallowed.
pub proof fn lemma_fresh_press_closes(s: State, shift: bool)
    ensures
        s.mode == Mode::App && !s.q_down ==> step_spec(s, Key::Q, false, shift).1 == (Actions {
            swallow: true,
            event: Some(Event::CloseApp),
            inject_dummy: false,
        }),
        s.mode == Mode::Win && !s.w_down ==> step_spec(s, Key::W, false, shift).1 == (Actions {
            swallow: true,
            event: Some(Event::CloseWindow),
            inject_dummy: false,
        }),
{
}

/// WIN down and WIN up always reach the OS: the hook never swallows them
/// and never injects on them, so WIN can never be seen stuck down.
pub proof fn lemma_win_always_passes(s: State, up: bool, shift: bool)
    ensures
        !step_spec(s, Key::Win, up, shift).1.swallow,
        !step_spec(s, Key::Win, up, shift).1.inject_dummy,
{
}

/// A key is swallowed only during a switcher session, or when TAB/§ goes
/// down with WIN held and starts one.
pub proof fn lemma_swallow_only_in_session(s: State, key: Key, up: bool, shift: bool)
    ensures
        step_spec(s, key, up, shift).1.swallow ==> key != Key::Win && (s.mode != Mode::Idle || (
        s.win_down && !up && (key == Key::Tab || key == Key::Section))),
{
}

/// Without WIN held and without a session, every key passes through
/// untouched and no session starts.
pub proof fn lemma_no_session_without_win(s: State, key: Key, up: bool, shift: bool)
    requires
        s.mode == Mode::Idle,
        !s.win_down,
    ensures
        step_spec(s, key, up, shift).0.mode == Mode::Idle,
        !step_spec(s, key, up, shift).1.swallow,
        step_spec(s, key, up, shift).1.event is None,
        !step_spec(s, key, up, shift).1.inject_dummy,
{
}

/// The dummy key is injected only when a session starts, while WIN is held.
pub proof fn lemma_dummy_only_at_session_start(s: State, key: Key, up: bool, shift: bool)
    ensures
        step_spec(s, key, up, shift).1.inject_dummy ==> s.mode == Mode::Idle
            && step_spec(s, key, up, shift).0.mode != Mode::Idle && s.win_down,
{
}

/// Releasing WIN commits exactly when a session is active, and always ends
/// the session.
pub proof fn lemma_commit_iff_win_up_in_session(s: State, key: Key, up: bool, shift: bool)
    ensures
        (step_spec(s, key, up, shift).1.event == Some(Event::Commit)) <==> (key == Key::Win && up
            && s.mode != Mode::Idle),
        key == Key::Win && up ==> step_spec(s, key, up, shift).0.mode == Mode::Idle
            && !step_spec(s, key, up, shift).0.win_down,
{
}

/// A key-up event never moves, closes or cancels anything; its only
/// possible event is the commit on WIN up.
pub proof fn lemma_key_up_only_commits(s: State, key: Key, shift: bool)
    ensures
        step_spec(s, key, true, shift).1.event is Some ==> step_spec(s, key, true, shift).1.event
            == Some(Event::Commit),
{
}

/// A session exists only while WIN is held: every step keeps this true.
pub proof fn lemma_session_implies_win_held(s: State, key: Key, up: bool, shift: bool)
    requires
        s.mode != Mode::Idle ==> s.win_down,
    ensures
        step_spec(s, key, up, shift).0.mode != Mode::Idle ==> step_spec(s, key, up, shift).0.win_down,
{
}

/// Closing needs a fresh press: an app is closed only by a Q press that
/// follows a Q release, in app mode; a window only by such a W press in
/// window mode.
pub proof fn lemma_close_needs_fresh_press(s: State, key: Key, up: bool, shift: bool)
    ensures
        step_spec(s, key, up, shift).1.event == Some(Event::CloseApp) ==> key == Key::Q && !up
            && !s.q_down && s.mode == Mode::App,
        step_spec(s, key, up, shift).1.event == Some(Event::CloseWindow) ==> key == Key::W && !up
            && !s.w_down && s.mode == Mode::Win,
{
}

/// Autorepeat closes one thing per physical press: a second Q (or W) press
/// with no release in between closes nothing.
pub proof fn lemma_autorepeat_closes_once(s: State, key: Key, shift1: bool, shift2: bool)
    requires
        key == Key::Q || key == Key::W,
    ensures
        step_spec(step_spec(s, key, false, shift1).0, key, false, shift2).1.event is None,
{
}

/// Escape cancels the session, and the WIN release that follows commits
/// nothing.
pub proof fn lemma_cancel_then_release_does_not_commit(s: State, shift: bool)
    requires
        s.mode != Mode::Idle,
    ensures
        step_spec(s, Key::Esc, false, shift).1.event == Some(Event::Cancel),
        step_spec(step_spec(s, Key::Esc, false, shift).0, Key::Win, true, shift).1.event is None,
{
}

} // verus!
