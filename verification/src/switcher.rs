//! The switcher session: from the first Next/Prev event to Commit/Cancel.
//!
//! WIN+TAB opens an app session: one group per running app, shown in the
//! switcher dialog. WIN+§ opens a window session over the foreground app's
//! windows: a quick tap switches with no UI, and the list dialog appears only
//! if WIN is still held after a delay. The session decides; the caller
//! enumerates windows, reads the dialog's selection and carries out the
//! commands it is given, in order.
use vstd::prelude::*;
use crate::apps::{
    app_groups_view, lemma_step_index_moves, lemma_step_index_wraps, step_index, step_index_spec,
    AppGroup, AppKey,
};
use crate::hook::Event;

verus! {

/// A running switcher session. Candidates are captured once at session
/// start, in z-order; window handles are plain numbers.
pub enum Session {
    /// WIN+TAB: one group per app; `kb` is the keyboard selection.
    App { groups: Vec<AppGroup>, kb: usize },
    /// WIN+§: the foreground app's windows and the selected one.
    Win { key: Option<AppKey>, windows: Vec<usize>, index: usize },
}

/// A session as mathematical values.
pub enum SessionView {
    App { groups: Seq<(AppKey, Seq<usize>)>, kb: nat },
    Win { key: Option<AppKey>, windows: Seq<usize>, index: nat },
}

impl Session {
    pub open spec fn view(&self) -> SessionView {
        match self {
            Session::App { groups, kb } => SessionView::App {
                groups: app_groups_view(groups@),
                kb: *kb as nat,
            },
            Session::Win { key, windows, index } => SessionView::Win {
                key: *key,
                windows: windows@,
                index: *index as nat,
            },
        }
    }
}

/// The session view of an optional session.
pub open spec fn slot_view(slot: Option<Session>) -> Option<SessionView> {
    match slot {
        Some(s) => Some(s.view()),
        None => None,
    }
}

/// Well-formed sessions: an app session has at least one group, every
/// group at least one window, and the selection inside the row; a window
/// session's index lies inside its list (or is 0 for an empty list).
pub open spec fn session_wf(s: Option<SessionView>) -> bool {
    match s {
        Some(SessionView::App { groups, kb }) => 0 < groups.len() <= isize::MAX && kb < groups.len()
            && forall|j: int| 0 <= j < groups.len() ==> #[trigger] groups[j].1.len() > 0,
        Some(SessionView::Win { windows, index, .. }) => windows.len() <= isize::MAX && if windows.len()
            == 0 {
            index == 0
        } else {
            index < windows.len()
        },
        None => true,
    }
}

/// What the caller must gather before handing an event to the session.
#[derive(Debug, Clone, Copy, PartialEq, Eq, Structural)]
pub enum Fetch {
    Nothing,
    /// The running apps' groups (`apps::app_groups`).
    AppGroups,
    /// The foreground app's key and windows.
    ForegroundWindows,
}

/// Fetched lists are no longer than a vector can be (`isize::MAX`), and
/// every fetched group has a window (as `apps::app_groups` guarantees).
pub open spec fn fetched_wf(f: FetchedView) -> bool {
    match f {
        FetchedView::Groups(g) => g.len() <= isize::MAX && forall|j: int|
            0 <= j < g.len() ==> #[trigger] g[j].1.len() > 0,
        FetchedView::Foreground(_, w) => w.len() <= isize::MAX,
        FetchedView::Nothing => true,
    }
}

/// What the caller gathered.
pub enum Fetched {
    Nothing,
    Groups(Vec<AppGroup>),
    Foreground(Option<AppKey>, Vec<usize>),
}

pub enum FetchedView {
    Nothing,
    Groups(Seq<(AppKey, Seq<usize>)>),
    Foreground(Option<AppKey>, Seq<usize>),
}

impl Fetched {
    pub open spec fn view(&self) -> FetchedView {
        match self {
            Fetched::Nothing => FetchedView::Nothing,
            Fetched::Groups(g) => FetchedView::Groups(app_groups_view(g@)),
            Fetched::Foreground(k, w) => FetchedView::Foreground(*k, w@),
        }
    }
}

/// The dialog as the session sees it.
#[derive(Clone, Copy)]
pub struct UiState {
    /// Whether a dialog is on screen.
    pub open: bool,
    /// Its effective selection.
    pub selection: usize,
}

/// What the caller must do, in order.
#[derive(Debug, Clone, Copy, PartialEq, Eq, Structural)]
pub enum Command {
    /// Stop the timer that opens the window list.
    KillWinListTimer,
    /// Start the timer that opens the window list after the dialog delay.
    SetWinListTimer,
    /// Close the dialog.
    CloseDialog,
    /// Show (or refresh) the app row of the session's groups, selecting `kb`.
    ShowApps(usize),
    /// Move the dialog's keyboard selection.
    SelectKb(usize),
    /// Bring this window to the foreground.
    Activate(usize),
    /// Ask this window to close.
    PostClose(usize),
    /// Refresh the open window list, selecting this row.
    ShowWindowList(usize),
}

/// What the caller must gather for `ev`: fresh groups when an app session
/// starts (also over a window session, which TAB discards), the foreground
/// app's windows when a window session starts.
pub open spec fn fetch_spec(s: Option<SessionView>, ev: Event) -> Fetch {
    match ev {
        Event::AppNext | Event::AppPrev => match s {
            Some(SessionView::App { .. }) => Fetch::Nothing,
            _ => Fetch::AppGroups,
        },
        Event::WinNext | Event::WinPrev => match s {
            None => Fetch::ForegroundWindows,
            _ => Fetch::Nothing,
        },
        _ => Fetch::Nothing,
    }
}

pub fn needs(slot: &Option<Session>, ev: Event) -> (f: Fetch)
    ensures
        f == fetch_spec(slot_view(*slot), ev),
{
    match ev {
        Event::AppNext | Event::AppPrev => match slot {
            Some(Session::App { .. }) => Fetch::Nothing,
            _ => Fetch::AppGroups,
        },
        Event::WinNext | Event::WinPrev => match slot {
            None => Fetch::ForegroundWindows,
            _ => Fetch::Nothing,
        },
        _ => Fetch::Nothing,
    }
}

pub open spec fn min(a: int, b: int) -> int {
    if a <= b {
        a
    } else {
        b
    }
}

/// The groups that were fetched, or none.
pub open spec fn fetched_groups(f: FetchedView) -> Seq<(AppKey, Seq<usize>)> {
    match f {
        FetchedView::Groups(g) => g,
        _ => Seq::empty(),
    }
}

/// The foreground app that was fetched, or none with no windows.
pub open spec fn fetched_foreground(f: FetchedView) -> (Option<AppKey>, Seq<usize>) {
    match f {
        FetchedView::Foreground(k, w) => (k, w),
        _ => (None, Seq::empty()),
    }
}

/// `PostClose` for each window, in order.
pub open spec fn close_all(windows: Seq<usize>) -> Seq<Command> {
    windows.map_values(|w: usize| Command::PostClose(w))
}

/// The session's reaction to one event: its next state and the commands
/// for the caller.
pub open spec fn on_event_spec(s: Option<SessionView>, ev: Event, f: FetchedView, ui: UiState) -> (
    Option<SessionView>,
    Seq<Command>,
) {
    match ev {
        Event::AppNext | Event::AppPrev => {
            let forward = ev == Event::AppNext;
            // TAB mid window session switches to the app switcher: the window
            // session is discarded, nothing activated.
            let (s, pre) = match s {
                Some(SessionView::Win { .. }) => (
                    None::<SessionView>,
                    seq![Command::KillWinListTimer, Command::CloseDialog],
                ),
                _ => (s, Seq::<Command>::empty()),
            };
            match s {
                Some(SessionView::App { groups, kb }) => {
                    let kb = step_index_spec(groups.len(), kb, forward);
                    (Some(SessionView::App { groups, kb }), pre.push(Command::SelectKb(kb as usize)))
                },
                _ => {
                    let groups = fetched_groups(f);
                    if groups.len() == 0 {
                        (None, pre)
                    } else {
                        // First press lands on the second app: releasing
                        // instantly switches to the previous app.
                        let kb = step_index_spec(groups.len(), 0, forward);
                        (Some(SessionView::App { groups, kb }), pre.push(Command::ShowApps(kb as usize)))
                    }
                },
            }
        },
        Event::WinNext | Event::WinPrev => {
            let forward = ev == Event::WinNext;
            match s {
                Some(SessionView::App { .. }) => (s, Seq::empty()),
                Some(SessionView::Win { key, windows, index }) => {
                    let index = step_index_spec(windows.len(), index, forward);
                    (
                        Some(SessionView::Win { key, windows, index }),
                        seq![Command::SelectKb(index as usize)],
                    )
                },
                None => {
                    let (key, windows) = fetched_foreground(f);
                    let index = step_index_spec(windows.len(), 0, forward);
                    (
                        Some(SessionView::Win { key, windows, index }),
                        seq![Command::SetWinListTimer, Command::SelectKb(index as usize)],
                    )
                },
            }
        },
        Event::Commit => match s {
            Some(SessionView::App { groups, .. }) => {
                let sel = ui.selection as int;
                if sel < groups.len() {
                    (
                        None,
                        seq![
                            Command::KillWinListTimer,
                            Command::Activate(groups[sel].1[0]),
                            Command::CloseDialog,
                        ],
                    )
                } else {
                    (None, seq![Command::KillWinListTimer, Command::CloseDialog])
                }
            },
            Some(SessionView::Win { windows, index, .. }) => {
                // The mouse may have picked a row in the list dialog.
                let sel = if ui.open {
                    ui.selection as int
                } else {
                    index as int
                };
                if sel < windows.len() {
                    (
                        None,
                        seq![
                            Command::KillWinListTimer,
                            Command::Activate(windows[sel]),
                            Command::CloseDialog,
                        ],
                    )
                } else {
                    (None, seq![Command::KillWinListTimer, Command::CloseDialog])
                }
            },
            None => (None, seq![Command::KillWinListTimer]),
        },
        Event::Cancel => (None, seq![Command::KillWinListTimer, Command::CloseDialog]),
        Event::CloseApp => match s {
            Some(SessionView::App { groups, kb }) => {
                let sel = min(ui.selection as int, groups.len() - 1);
                let rest = groups.remove(sel);
                let closes = close_all(groups[sel].1);
                if rest.len() == 0 {
                    (None, closes.push(Command::CloseDialog))
                } else {
                    let kb = min(sel, rest.len() - 1) as nat;
                    (Some(SessionView::App { groups: rest, kb }), closes.push(Command::ShowApps(kb as usize)))
                }
            },
            _ => (s, Seq::empty()),
        },
        Event::CloseWindow => match s {
            Some(SessionView::Win { key, windows, index }) => {
                if windows.len() == 0 {
                    (s, Seq::empty())
                } else {
                    let pick = if ui.open {
                        ui.selection as int
                    } else {
                        index as int
                    };
                    let sel = min(pick, windows.len() - 1);
                    let rest = windows.remove(sel);
                    let close = seq![Command::PostClose(windows[sel])];
                    if rest.len() == 0 {
                        (None, close + seq![Command::KillWinListTimer, Command::CloseDialog])
                    } else {
                        let index = min(sel, rest.len() - 1) as nat;
                        (
                            Some(SessionView::Win { key, windows: rest, index }),
                            if ui.open {
                                close.push(Command::ShowWindowList(index as usize))
                            } else {
                                close
                            },
                        )
                    }
                }
            },
            _ => (s, Seq::empty()),
        },
    }
}


/// Hand one event to the session: it moves to its next state and returns
/// the commands for the caller, in order.
#[verifier::rlimit(40)]
pub fn on_event(slot: &mut Option<Session>, ev: Event, fetched: Fetched, ui: UiState) -> (cmds: Vec<
    Command,
>)
    requires
        session_wf(slot_view(*old(slot))),
        fetched_wf(fetched.view()),
    ensures
        (slot_view(*final(slot)), cmds@) == on_event_spec(slot_view(*old(slot)), ev, fetched.view(), ui),
{
    let ghost f = fetched.view();
    let current = slot.take();
    let mut cmds: Vec<Command> = Vec::new();
    match ev {
        Event::AppNext | Event::AppPrev => {
            let forward = ev == Event::AppNext;
            let current = match current {
                Some(Session::Win { .. }) => {
                    cmds.push(Command::KillWinListTimer);
                    cmds.push(Command::CloseDialog);
                    None
                },
                other => other,
            };
            match current {
                Some(Session::App { groups, kb }) => {
                    let kb = step_index(groups.len(), kb, forward);
                    cmds.push(Command::SelectKb(kb));
                    *slot = Some(Session::App { groups, kb });
                },
                _ => {
                    let groups = match fetched {
                        Fetched::Groups(g) => g,
                        _ => Vec::new(),
                    };
                    if groups.len() == 0 {
                        *slot = None;
                    } else {
                        let kb = step_index(groups.len(), 0, forward);
                        cmds.push(Command::ShowApps(kb));
                        *slot = Some(Session::App { groups, kb });
                    }
                },
            }
        },
        Event::WinNext | Event::WinPrev => {
            let forward = ev == Event::WinNext;
            match current {
                Some(Session::App { groups, kb }) => {
                    *slot = Some(Session::App { groups, kb });
                },
                Some(Session::Win { key, windows, index }) => {
                    let index = step_index(windows.len(), index, forward);
                    cmds.push(Command::SelectKb(index));
                    *slot = Some(Session::Win { key, windows, index });
                },
                None => {
                    let (key, windows) = match fetched {
                        Fetched::Foreground(k, w) => (k, w),
                        _ => (None, Vec::new()),
                    };
                    // The list dialog appears only if WIN is still held after
                    // the delay — a quick tap switches with no UI.
                    cmds.push(Command::SetWinListTimer);
                    let index = step_index(windows.len(), 0, forward);
                    cmds.push(Command::SelectKb(index));
                    *slot = Some(Session::Win { key, windows, index });
                },
            }
        },
        Event::Commit => {
            cmds.push(Command::KillWinListTimer);
            match current {
                Some(Session::App { groups, .. }) => {
                    let sel = ui.selection;
                    if sel < groups.len() {
                        cmds.push(Command::Activate(groups[sel].windows[0]));
                    }
                    cmds.push(Command::CloseDialog);
                },
                Some(Session::Win { windows, index, .. }) => {
                    // The mouse may have picked a row in the list dialog.
                    let sel = if ui.open {
                        ui.selection
                    } else {
                        index
                    };
                    if sel < windows.len() {
                        cmds.push(Command::Activate(windows[sel]));
                    }
                    cmds.push(Command::CloseDialog);
                },
                None => {},
            }
        },
        Event::Cancel => {
            cmds.push(Command::KillWinListTimer);
            cmds.push(Command::CloseDialog);
        },
        // WIN+Q: close every window of the selected app, drop its icon from
        // the row, keep the session going (macOS Cmd+Q behavior).
        Event::CloseApp => {
            match current {
                Some(Session::App { mut groups, kb }) => {
                    let ghost before = app_groups_view(groups@);
                    let sel = if ui.selection < groups.len() - 1 {
                        ui.selection
                    } else {
                        groups.len() - 1
                    };
                    let group = groups.remove(sel);
                    assert(app_groups_view(groups@) =~= before.remove(sel as int));
                    assert(before[sel as int] == (group.key, group.windows@));
                    let mut k: usize = 0;
                    while k < group.windows.len()
                        invariant
                            k <= group.windows@.len(),
                            cmds@ == close_all(group.windows@).take(k as int),
                        decreases group.windows.len() - k,
                    {
                        cmds.push(Command::PostClose(group.windows[k]));
                        assert(cmds@ =~= close_all(group.windows@).take(k + 1));
                        k += 1;
                    }
                    assert(cmds@ =~= close_all(group.windows@));
                    if groups.len() == 0 {
                        cmds.push(Command::CloseDialog);
                        *slot = None;
                    } else {
                        let kb = if sel < groups.len() - 1 {
                            sel
                        } else {
                            groups.len() - 1
                        };
                        cmds.push(Command::ShowApps(kb));
                        *slot = Some(Session::App { groups, kb });
                    }
                },
                other => {
                    *slot = other;
                },
            }
        },
        // W in the window list: close only the selected window, keep the app
        // and the session going (macOS Cmd+W behavior).
        Event::CloseWindow => {
            match current {
                Some(Session::Win { key, mut windows, index }) => {
                    if windows.len() == 0 {
                        *slot = Some(Session::Win { key, windows, index });
                    } else {
                        let pick = if ui.open {
                            ui.selection
                        } else {
                            index
                        };
                        let sel = if pick < windows.len() - 1 {
                            pick
                        } else {
                            windows.len() - 1
                        };
                        let window = windows.remove(sel);
                        cmds.push(Command::PostClose(window));
                        if windows.len() == 0 {
                            cmds.push(Command::KillWinListTimer);
                            cmds.push(Command::CloseDialog);
                            *slot = None;
                        } else {
                            let index = if sel < windows.len() - 1 {
                                sel
                            } else {
                                windows.len() - 1
                            };
                            if ui.open {
                                cmds.push(Command::ShowWindowList(index));
                            }
                            *slot = Some(Session::Win { key, windows, index });
                        }
                    }
                },
                other => {
                    *slot = other;
                },
            }
        },
    }
    cmds
}


/// When the window-list delay elapses with WIN still held: the row to show
/// selected, if a window session with windows is running.
pub fn window_list_due(slot: &Option<Session>) -> (r: Option<usize>)
    ensures
        r == match slot_view(*slot) {
            Some(SessionView::Win { windows, index, .. }) => if windows.len() > 0 {
                Some(index as usize)
            } else {
                None
            },
            _ => None,
        },
{
    match slot {
        Some(Session::Win { windows, index, .. }) => if windows.len() > 0 {
            Some(*index)
        } else {
            None
        },
        _ => None,
    }
}

/// Every event keeps the session well formed.
pub proof fn lemma_session_stays_well_formed(s: Option<SessionView>, ev: Event, f: FetchedView, ui: UiState)
    requires
        session_wf(s),
        fetched_wf(f),
    ensures
        session_wf(on_event_spec(s, ev, f, ui).0),
{
    match s {
        Some(SessionView::App { groups, kb }) => {
            lemma_step_index_wraps(groups.len(), kb, true);
            lemma_step_index_wraps(groups.len(), kb, false);
        },
        Some(SessionView::Win { windows, index, .. }) => {
            if windows.len() > 0 {
                lemma_step_index_wraps(windows.len(), index, true);
                lemma_step_index_wraps(windows.len(), index, false);
            }
        },
        None => {},
    }
    let g = fetched_groups(f);
    if g.len() > 0 {
        lemma_step_index_wraps(g.len(), 0, true);
        lemma_step_index_wraps(g.len(), 0, false);
    }
    let w = fetched_foreground(f).1;
    if w.len() > 0 {
        lemma_step_index_wraps(w.len(), 0, true);
        lemma_step_index_wraps(w.len(), 0, false);
    }
    if ev == Event::CloseApp {
        if let Some(SessionView::App { groups, kb }) = s {
            let sel = min(ui.selection as int, groups.len() - 1);
            let rest = groups.remove(sel);
            assert forall|j: int| 0 <= j < rest.len() implies #[trigger] rest[j].1.len() > 0 by {
                if j < sel {
                    assert(rest[j] == groups[j]);
                } else {
                    assert(rest[j] == groups[j + 1]);
                }
            }
        }
    }
}

/// Commit and Cancel always end the session.
pub proof fn lemma_commit_and_cancel_end_session(s: Option<SessionView>, f: FetchedView, ui: UiState)
    ensures
        on_event_spec(s, Event::Commit, f, ui).0 is None,
        on_event_spec(s, Event::Cancel, f, ui).0 is None,
{
}

/// Only a commit activates a window, and only windows are closed on WIN+Q
/// and W: moving the selection, cancelling, or switching over from a window
/// session to the app switcher never activates or closes anything.
pub proof fn lemma_only_commit_activates(s: Option<SessionView>, ev: Event, f: FetchedView, ui: UiState)
    ensures
        forall|i: int|
            0 <= i < on_event_spec(s, ev, f, ui).1.len() ==> (#[trigger] on_event_spec(s, ev, f, ui).1[i] is Activate
                ==> ev == Event::Commit) && (on_event_spec(s, ev, f, ui).1[i] is PostClose ==> ev
                == Event::CloseApp || ev == Event::CloseWindow),
{
    let cmds = on_event_spec(s, ev, f, ui).1;
    if ev == Event::CloseApp {
        if let Some(SessionView::App { groups, kb }) = s {
            let sel = min(ui.selection as int, groups.len() - 1);
            let closes = close_all(groups[sel].1);
            assert forall|i: int| 0 <= i < closes.len() implies #[trigger] closes[i] is PostClose by {}
        }
    }
}

/// A commit activates exactly the selected window: the topmost window of the
/// selected app, or the selected window of the list (the dialog's selection
/// once the list is open, the keyboard's before) — and nothing when the
/// selection lies outside the candidates.
pub proof fn lemma_commit_activates_selection(s: Option<SessionView>, f: FetchedView, ui: UiState, w: usize)
    requires
        session_wf(s),
    ensures
        on_event_spec(s, Event::Commit, f, ui).1.contains(Command::Activate(w)) <==> match s {
            Some(SessionView::App { groups, .. }) => ui.selection < groups.len() && w
                == groups[ui.selection as int].1[0],
            Some(SessionView::Win { windows, index, .. }) => {
                let sel = if ui.open {
                    ui.selection as int
                } else {
                    index as int
                };
                sel < windows.len() && w == windows[sel]
            },
            None => false,
        },
{
    let cmds = on_event_spec(s, Event::Commit, f, ui).1;
    match s {
        Some(SessionView::App { groups, .. }) => {
            if ui.selection < groups.len() {
                assert(cmds[1] == Command::Activate(groups[ui.selection as int].1[0]));
            }
        },
        Some(SessionView::Win { windows, index, .. }) => {
            let sel = if ui.open {
                ui.selection as int
            } else {
                index as int
            };
            if sel < windows.len() {
                assert(cmds[1] == Command::Activate(windows[sel]));
            }
        },
        None => {},
    }
}

/// WIN+Q closes exactly the windows of the selected app and drops that app
/// from the row, keeping the other apps in order.
pub proof fn lemma_close_app_closes_selected_group(s: Option<SessionView>, f: FetchedView, ui: UiState, w: usize)
    requires
        session_wf(s),
        s matches Some(SessionView::App { .. }),
    ensures
        ({
            let groups = s->0->App_groups;
            let sel = min(ui.selection as int, groups.len() - 1);
            let (next, cmds) = on_event_spec(s, Event::CloseApp, f, ui);
            &&& cmds.contains(Command::PostClose(w)) <==> groups[sel].1.contains(w)
            &&& match next {
                Some(SessionView::App { groups: rest, .. }) => rest == groups.remove(sel),
                Some(SessionView::Win { .. }) => false,
                None => groups.remove(sel).len() == 0,
            }
        }),
{
    let groups = s->0->App_groups;
    let sel = min(ui.selection as int, groups.len() - 1);
    let closes = close_all(groups[sel].1);
    let cmds = on_event_spec(s, Event::CloseApp, f, ui).1;
    assert(cmds.len() == closes.len() + 1);
    assert forall|i: int| 0 <= i < closes.len() implies cmds[i] == closes[i] by {}
    if groups[sel].1.contains(w) {
        let i = choose|i: int| 0 <= i < groups[sel].1.len() && groups[sel].1[i] == w;
        assert(cmds[i] == Command::PostClose(w));
    }
    if cmds.contains(Command::PostClose(w)) {
        let i = choose|i: int| 0 <= i < cmds.len() && cmds[i] == Command::PostClose(w);
        if i < closes.len() {
            assert(groups[sel].1[i] == w);
        }
    }
}

/// W closes exactly the selected window (the dialog's selection once the
/// list is open, the keyboard's before, clamped to the list) and drops it
/// from the list; the session ends with its last window.
pub proof fn lemma_close_window_closes_selected(s: Option<SessionView>, f: FetchedView, ui: UiState, w: usize)
    requires
        session_wf(s),
        s matches Some(SessionView::Win { windows, .. }) && windows.len() > 0,
    ensures
        ({
            let windows = s->0->Win_windows;
            let pick = if ui.open {
                ui.selection as int
            } else {
                s->0->Win_index as int
            };
            let sel = min(pick, windows.len() - 1);
            let (next, cmds) = on_event_spec(s, Event::CloseWindow, f, ui);
            &&& cmds.contains(Command::PostClose(w)) <==> w == windows[sel]
            &&& match next {
                Some(SessionView::Win { windows: rest, .. }) => rest == windows.remove(sel),
                Some(SessionView::App { .. }) => false,
                None => windows.len() == 1,
            }
        }),
{
    let windows = s->0->Win_windows;
    let pick = if ui.open {
        ui.selection as int
    } else {
        s->0->Win_index as int
    };
    let sel = min(pick, windows.len() - 1);
    let cmds = on_event_spec(s, Event::CloseWindow, f, ui).1;
    assert(cmds[0] == Command::PostClose(windows[sel]));
    if cmds.contains(Command::PostClose(w)) {
        let i = choose|i: int| 0 <= i < cmds.len() && cmds[i] == Command::PostClose(w);
        assert(i == 0);
    }
}

/// The first WIN+TAB of a session selects the second app in z-order — the
/// previously used one — so releasing WIN at once switches back to it (with
/// a single app, that app).
pub proof fn lemma_first_tab_selects_previous_app(f: FetchedView, ui: UiState)
    requires
        fetched_groups(f).len() > 0,
    ensures
        ({
            let g = fetched_groups(f);
            let kb = (1nat % g.len()) as nat;
            on_event_spec(None, Event::AppNext, f, ui) == (
                Some(SessionView::App { groups: g, kb }),
                seq![Command::ShowApps(kb as usize)],
            )
        }),
{
    let g = fetched_groups(f);
    assert(Seq::<Command>::empty().push(Command::ShowApps((1nat % g.len()) as usize)) =~= seq![
        Command::ShowApps((1nat % g.len()) as usize),
    ]);
}

/// A quick WIN+§ tap switches to the foreground app's next window with no
/// dialog: the session starts with the window-list timer and the second
/// window selected, and a release before the list opens activates it.
pub proof fn lemma_quick_tap_switches_window(f: FetchedView, ui: UiState, f2: FetchedView, ui2: UiState)
    requires
        fetched_foreground(f).1.len() > 0,
        !ui2.open,
    ensures
        ({
            let windows = fetched_foreground(f).1;
            let index = 1nat % windows.len();
            let (s, cmds) = on_event_spec(None, Event::WinNext, f, ui);
            &&& cmds == seq![Command::SetWinListTimer, Command::SelectKb(index as usize)]
            &&& on_event_spec(s, Event::Commit, f2, ui2) == (
                None::<SessionView>,
                seq![
                    Command::KillWinListTimer,
                    Command::Activate(windows[index as int]),
                    Command::CloseDialog,
                ],
            )
        }),
{
}

/// In a running app session TAB (AppNext) moves the keyboard selection to
/// the next app, from the last back to the first, and SHIFT+TAB (AppPrev)
/// to the previous one, from the first to the last; the row stays as it
/// is and only the dialog's selection moves. A step back undoes a step
/// forward.
pub proof fn lemma_app_session_steps(groups: Seq<(AppKey, Seq<usize>)>, kb: nat, f: FetchedView, ui: UiState, ui2: UiState)
    requires
        session_wf(Some(SessionView::App { groups, kb })),
    ensures
        ({
            let s = Some(SessionView::App { groups, kb });
            let n = groups.len();
            let next: nat = if kb + 1 < n { (kb + 1) as nat } else { 0 };
            let prev: nat = if kb > 0 { (kb - 1) as nat } else { (n - 1) as nat };
            &&& on_event_spec(s, Event::AppNext, f, ui) == (
                Some(SessionView::App { groups, kb: next }),
                seq![Command::SelectKb(next as usize)],
            )
            &&& on_event_spec(s, Event::AppPrev, f, ui) == (
                Some(SessionView::App { groups, kb: prev }),
                seq![Command::SelectKb(prev as usize)],
            )
            &&& on_event_spec(on_event_spec(s, Event::AppNext, f, ui).0, Event::AppPrev, f, ui2).0 == s
        }),
{
    let n = groups.len();
    lemma_step_index_moves(n, kb);
    let next: nat = if kb + 1 < n { (kb + 1) as nat } else { 0 };
    lemma_step_index_moves(n, next);
    assert(Seq::<Command>::empty().push(Command::SelectKb(next as usize)) =~= seq![Command::SelectKb(next as usize)]);
    let prev: nat = if kb > 0 { (kb - 1) as nat } else { (n - 1) as nat };
    assert(Seq::<Command>::empty().push(Command::SelectKb(prev as usize)) =~= seq![Command::SelectKb(prev as usize)]);
}

/// In a running window session § (WinNext) moves the selection to the
/// next window, from the last back to the first, and SHIFT+§ (WinPrev) to
/// the previous one; the window list stays as it is. A step back undoes a
/// step forward.
pub proof fn lemma_window_session_steps(
    key: Option<AppKey>,
    windows: Seq<usize>,
    index: nat,
    f: FetchedView,
    ui: UiState,
    ui2: UiState,
)
    requires
        session_wf(Some(SessionView::Win { key, windows, index })),
        windows.len() > 0,
    ensures
        ({
            let s = Some(SessionView::Win { key, windows, index });
            let n = windows.len();
            let next: nat = if index + 1 < n { (index + 1) as nat } else { 0 };
            let prev: nat = if index > 0 { (index - 1) as nat } else { (n - 1) as nat };
            &&& on_event_spec(s, Event::WinNext, f, ui) == (
                Some(SessionView::Win { key, windows, index: next }),
                seq![Command::SelectKb(next as usize)],
            )
            &&& on_event_spec(s, Event::WinPrev, f, ui) == (
                Some(SessionView::Win { key, windows, index: prev }),
                seq![Command::SelectKb(prev as usize)],
            )
            &&& on_event_spec(on_event_spec(s, Event::WinNext, f, ui).0, Event::WinPrev, f, ui2).0 == s
        }),
{
    let n = windows.len();
    lemma_step_index_moves(n, index);
    let next: nat = if index + 1 < n { (index + 1) as nat } else { 0 };
    lemma_step_index_moves(n, next);
}

/// W with the window list showing more than one window closes the selected
/// one (the dialog's selection once the list is open, the keyboard's
/// before, clamped to the list) and keeps the selection where it was: on
/// the window that moved into the closed one's place, or on the new last
/// window when the last one was closed. An open list is shown again with
/// that selection.
pub proof fn lemma_close_window_keeps_place(
    key: Option<AppKey>,
    windows: Seq<usize>,
    index: nat,
    f: FetchedView,
    ui: UiState,
)
    requires
        session_wf(Some(SessionView::Win { key, windows, index })),
        windows.len() > 1,
    ensures
        ({
            let n = windows.len();
            let pick = if ui.open { ui.selection as int } else { index as int };
            let sel = if pick < n - 1 { pick } else { n - 1 };
            let kept: nat = if sel < n - 2 { sel as nat } else { (n - 2) as nat };
            let (next, cmds) = on_event_spec(Some(SessionView::Win { key, windows, index }), Event::CloseWindow, f, ui);
            &&& next == Some(SessionView::Win { key, windows: windows.remove(sel), index: kept })
            &&& cmds == if ui.open {
                seq![Command::PostClose(windows[sel]), Command::ShowWindowList(kept as usize)]
            } else {
                seq![Command::PostClose(windows[sel])]
            }
        }),
{
}

/// WIN+Q with more than one app in the row closes every window of the
/// selected app (the dialog's selection, clamped to the row), in order,
/// drops the app from the row and keeps the selection where it was: on the
/// app that moved into its place, or on the new last app; the row is shown
/// again with that selection.
pub proof fn lemma_close_app_keeps_place(
    groups: Seq<(AppKey, Seq<usize>)>,
    kb: nat,
    f: FetchedView,
    ui: UiState,
)
    requires
        session_wf(Some(SessionView::App { groups, kb })),
        groups.len() > 1,
    ensures
        ({
            let n = groups.len();
            let sel = if (ui.selection as int) < n - 1 { ui.selection as int } else { n - 1 };
            let kept: nat = if sel < n - 2 { sel as nat } else { (n - 2) as nat };
            let closed = groups[sel].1;
            let (next, cmds) = on_event_spec(Some(SessionView::App { groups, kb }), Event::CloseApp, f, ui);
            &&& next == Some(SessionView::App { groups: groups.remove(sel), kb: kept })
            &&& cmds.len() == closed.len() + 1
            &&& forall|i: int| 0 <= i < closed.len() ==> #[trigger] cmds[i] == Command::PostClose(closed[i])
            &&& cmds[closed.len() as int] == Command::ShowApps(kept as usize)
        }),
{
}

/// TAB during a window session switches over to the app switcher: the
/// window session is dropped (its timer stopped, its dialog closed) and
/// the result is what TAB does with no session at all.
pub proof fn lemma_tab_over_window_session(s: Option<SessionView>, ev: Event, f: FetchedView, ui: UiState)
    requires
        s matches Some(SessionView::Win { .. }),
        ev == Event::AppNext || ev == Event::AppPrev,
    ensures
        on_event_spec(s, ev, f, ui) == (
            on_event_spec(None, ev, f, ui).0,
            seq![Command::KillWinListTimer, Command::CloseDialog] + on_event_spec(None, ev, f, ui).1,
        ),
{
    let cmds = on_event_spec(None, ev, f, ui).1;
    assert(seq![Command::KillWinListTimer, Command::CloseDialog] + cmds =~= on_event_spec(s, ev, f, ui).1) by {
        let g = fetched_groups(f);
        if g.len() > 0 {
            let kb = step_index_spec(g.len(), 0, ev == Event::AppNext);
            assert(cmds =~= seq![Command::ShowApps(kb as usize)]);
        } else {
            assert(cmds =~= Seq::<Command>::empty());
        }
    }
}

/// ESC ends any session without switching: the timer is stopped and the
/// dialog closed, nothing else.
pub proof fn lemma_cancel_switches_nothing(s: Option<SessionView>, f: FetchedView, ui: UiState)
    ensures
        on_event_spec(s, Event::Cancel, f, ui) == (
            None::<SessionView>,
            seq![Command::KillWinListTimer, Command::CloseDialog],
        ),
{
}

/// Keys of the other mode change nothing: § during an app session, Q
/// outside an app session, and W outside a window session leave the session
/// as it is and ask for nothing.
pub proof fn lemma_other_mode_keys_do_nothing(s: Option<SessionView>, f: FetchedView, ui: UiState)
    ensures
        s matches Some(SessionView::App { .. }) ==> on_event_spec(s, Event::WinNext, f, ui) == (s, Seq::<Command>::empty())
            && on_event_spec(s, Event::WinPrev, f, ui) == (s, Seq::<Command>::empty()),
        !(s matches Some(SessionView::App { .. })) ==> on_event_spec(s, Event::CloseApp, f, ui) == (s, Seq::<Command>::empty()),
        !(s matches Some(SessionView::Win { .. })) ==> on_event_spec(s, Event::CloseWindow, f, ui) == (s, Seq::<Command>::empty()),
{
}

/// The caller is asked to enumerate exactly when a session starts: the
/// running apps when TAB starts (or switches to) the app switcher, the
/// foreground app's windows when § starts a window session; never
/// otherwise.
pub proof fn lemma_fetch_only_at_session_start(s: Option<SessionView>, ev: Event)
    ensures
        (fetch_spec(s, ev) == Fetch::AppGroups) <==> ((ev == Event::AppNext || ev == Event::AppPrev)
            && !(s matches Some(SessionView::App { .. }))),
        (fetch_spec(s, ev) == Fetch::ForegroundWindows) <==> ((ev == Event::WinNext || ev == Event::WinPrev)
            && s is None),
{
}

} // verus!
