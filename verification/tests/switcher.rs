use win_app_switcher::apps::{AppGroup, AppKey};
use win_app_switcher::hook::Event;
use win_app_switcher::switcher::{
    needs, on_event, window_list_due, Command, Fetch, Fetched, Session, UiState,
};

fn group(id: &str, windows: &[usize]) -> AppGroup {
    AppGroup {
        key: AppKey { exe: format!("{id}.exe"), aumid: None },
        windows: windows.to_vec(),
    }
}

fn ui(open: bool, selection: usize) -> UiState {
    UiState { open, selection }
}

fn app_kb(slot: &Option<Session>) -> Option<usize> {
    match slot {
        Some(Session::App { kb, .. }) => Some(*kb),
        _ => None,
    }
}

#[test]
fn first_tab_lands_on_the_second_app() {
    let mut slot = None;
    assert_eq!(needs(&slot, Event::AppNext), Fetch::AppGroups);
    let cmds = on_event(
        &mut slot,
        Event::AppNext,
        Fetched::Groups(vec![group("a", &[1]), group("b", &[2]), group("c", &[3])]),
        ui(false, 0),
    );
    assert_eq!(cmds, vec![Command::ShowApps(1)]);
    assert_eq!(app_kb(&slot), Some(1));
    // Further tabs only move the selection.
    assert_eq!(needs(&slot, Event::AppNext), Fetch::Nothing);
    let cmds = on_event(&mut slot, Event::AppPrev, Fetched::Nothing, ui(true, 1));
    assert_eq!(cmds, vec![Command::SelectKb(0)]);
    let cmds = on_event(&mut slot, Event::AppPrev, Fetched::Nothing, ui(true, 0));
    assert_eq!(cmds, vec![Command::SelectKb(2)]);
}

#[test]
fn no_apps_means_no_session() {
    let mut slot = None;
    let cmds = on_event(&mut slot, Event::AppNext, Fetched::Groups(vec![]), ui(false, 0));
    assert!(cmds.is_empty());
    assert!(slot.is_none());
}

#[test]
fn commit_activates_the_selected_apps_topmost_window() {
    let mut slot = None;
    on_event(
        &mut slot,
        Event::AppNext,
        Fetched::Groups(vec![group("a", &[1, 4]), group("b", &[2, 5])]),
        ui(false, 0),
    );
    // The mouse picked the second app.
    let cmds = on_event(&mut slot, Event::Commit, Fetched::Nothing, ui(true, 1));
    assert_eq!(
        cmds,
        vec![Command::KillWinListTimer, Command::Activate(2), Command::CloseDialog]
    );
    assert!(slot.is_none());
    // Nothing to commit: only the timer is stopped.
    let cmds = on_event(&mut slot, Event::Commit, Fetched::Nothing, ui(false, 0));
    assert_eq!(cmds, vec![Command::KillWinListTimer]);
}

#[test]
fn commit_out_of_range_activates_nothing() {
    let mut slot = Some(Session::App { groups: vec![group("a", &[1])], kb: 0 });
    let cmds = on_event(&mut slot, Event::Commit, Fetched::Nothing, ui(true, 7));
    assert_eq!(cmds, vec![Command::KillWinListTimer, Command::CloseDialog]);
    assert!(slot.is_none());
}

#[test]
fn cancel_ends_the_session_without_switching() {
    let mut slot = Some(Session::App { groups: vec![group("a", &[1]), group("b", &[2])], kb: 1 });
    let cmds = on_event(&mut slot, Event::Cancel, Fetched::Nothing, ui(true, 1));
    assert_eq!(cmds, vec![Command::KillWinListTimer, Command::CloseDialog]);
    assert!(slot.is_none());
}

#[test]
fn window_session_steps_and_commits_without_ui() {
    let mut slot = None;
    assert_eq!(needs(&slot, Event::WinNext), Fetch::ForegroundWindows);
    let key = AppKey { exe: "code.exe".to_string(), aumid: None };
    let cmds = on_event(
        &mut slot,
        Event::WinNext,
        Fetched::Foreground(Some(key), vec![10, 11, 12]),
        ui(false, 0),
    );
    assert_eq!(cmds, vec![Command::SetWinListTimer, Command::SelectKb(1)]);
    assert_eq!(window_list_due(&slot), Some(1));
    // A quick tap: no dialog, the keyboard index decides.
    let cmds = on_event(&mut slot, Event::Commit, Fetched::Nothing, ui(false, 0));
    assert_eq!(
        cmds,
        vec![Command::KillWinListTimer, Command::Activate(11), Command::CloseDialog]
    );
    assert_eq!(window_list_due(&slot), None);
}

#[test]
fn tab_over_window_session_discards_it() {
    let mut slot = Some(Session::Win { key: None, windows: vec![10, 11], index: 1 });
    assert_eq!(needs(&slot, Event::AppNext), Fetch::AppGroups);
    let cmds = on_event(
        &mut slot,
        Event::AppNext,
        Fetched::Groups(vec![group("a", &[1]), group("b", &[2])]),
        ui(true, 0),
    );
    assert_eq!(
        cmds,
        vec![Command::KillWinListTimer, Command::CloseDialog, Command::ShowApps(1)]
    );
    assert_eq!(app_kb(&slot), Some(1));
    // Section keys during an app session do nothing to it.
    let cmds = on_event(&mut slot, Event::WinNext, Fetched::Nothing, ui(true, 1));
    assert!(cmds.is_empty());
    assert_eq!(app_kb(&slot), Some(1));
}

#[test]
fn close_app_closes_every_window_of_the_selection() {
    let mut slot = Some(Session::App {
        groups: vec![group("a", &[1]), group("b", &[2, 3]), group("c", &[4])],
        kb: 1,
    });
    let cmds = on_event(&mut slot, Event::CloseApp, Fetched::Nothing, ui(true, 1));
    assert_eq!(
        cmds,
        vec![Command::PostClose(2), Command::PostClose(3), Command::ShowApps(1)]
    );
    match &slot {
        Some(Session::App { groups, kb }) => {
            assert_eq!(groups.len(), 2);
            assert_eq!(groups[1].windows, vec![4]);
            assert_eq!(*kb, 1);
        }
        _ => panic!("app session expected"),
    }
    // A selection past the end closes the last app.
    let cmds = on_event(&mut slot, Event::CloseApp, Fetched::Nothing, ui(true, 9));
    assert_eq!(cmds, vec![Command::PostClose(4), Command::ShowApps(0)]);
    // Closing the last app ends the session.
    let cmds = on_event(&mut slot, Event::CloseApp, Fetched::Nothing, ui(true, 0));
    assert_eq!(cmds, vec![Command::PostClose(1), Command::CloseDialog]);
    assert!(slot.is_none());
}

#[test]
fn close_window_keeps_the_session_until_the_last_window() {
    let mut slot = Some(Session::Win { key: None, windows: vec![10, 11], index: 1 });
    // The list is open: its selection decides.
    let cmds = on_event(&mut slot, Event::CloseWindow, Fetched::Nothing, ui(true, 0));
    assert_eq!(cmds, vec![Command::PostClose(10), Command::ShowWindowList(0)]);
    let cmds = on_event(&mut slot, Event::CloseWindow, Fetched::Nothing, ui(false, 5));
    assert_eq!(
        cmds,
        vec![Command::PostClose(11), Command::KillWinListTimer, Command::CloseDialog]
    );
    assert!(slot.is_none());
    // An empty window session ignores W.
    let mut empty = Some(Session::Win { key: None, windows: vec![], index: 0 });
    assert!(on_event(&mut empty, Event::CloseWindow, Fetched::Nothing, ui(false, 0)).is_empty());
    assert!(empty.is_some());
    assert_eq!(window_list_due(&empty), None);
}
