use win_app_switcher::filter::{classify_foreground, is_eligible, is_shell_host, OverlayCheck, WindowFacts};
use win_app_switcher::hook::{map_key, Event, Key};
use win_app_switcher::ui::{centered_origin, in_panel, mouse_coords, Selection};

fn normal_window() -> WindowFacts {
    WindowFacts {
        is_shell_window: false,
        visible: true,
        tool_window: false,
        topmost: false,
        app_window: false,
        owned: false,
        class: "Chrome_WidgetWin_1".to_string(),
        cloaked: false,
        on_other_desktop: false,
    }
}

#[test]
fn ordinary_windows_are_eligible() {
    assert!(is_eligible(&normal_window()));
}

#[test]
fn desktop_hidden_and_tool_windows_are_not() {
    let mut w = normal_window();
    w.is_shell_window = true;
    assert!(!is_eligible(&w));
    let mut w = normal_window();
    w.visible = false;
    assert!(!is_eligible(&w));
    let mut w = normal_window();
    w.tool_window = true;
    w.app_window = true;
    assert!(!is_eligible(&w));
}

#[test]
fn topmost_and_owned_windows_need_the_app_window_style() {
    let mut w = normal_window();
    w.topmost = true;
    assert!(!is_eligible(&w));
    w.app_window = true;
    assert!(is_eligible(&w));
    let mut w = normal_window();
    w.owned = true;
    assert!(!is_eligible(&w));
    w.app_window = true;
    assert!(is_eligible(&w));
}

#[test]
fn blocklisted_classes_are_never_eligible() {
    for class in ["Shell_TrayWnd", "Button", "Windows.UI.Core.CoreWindow", "Dwm", "SysShadow"] {
        let mut w = normal_window();
        w.class = class.to_string();
        assert!(!is_eligible(&w), "{class}");
    }
    let mut w = normal_window();
    w.class = "Dwm2".to_string();
    assert!(is_eligible(&w));
    w.class = "button".to_string();
    assert!(is_eligible(&w), "class match is exact");
}

#[test]
fn cloaked_windows_count_only_on_another_desktop() {
    let mut w = normal_window();
    w.cloaked = true;
    assert!(!is_eligible(&w));
    w.on_other_desktop = true;
    assert!(is_eligible(&w));
}

#[test]
fn foreground_overlays_are_recognised_by_class() {
    assert_eq!(classify_foreground("Xaml_WindowedPopupClass"), OverlayCheck::Overlay);
    assert_eq!(classify_foreground("XamlExplorerHostIslandWindow"), OverlayCheck::Overlay);
    assert_eq!(classify_foreground("Shell_TrayWnd"), OverlayCheck::Overlay);
    assert_eq!(classify_foreground("Windows.UI.Core.CoreWindow"), OverlayCheck::AskHostExe);
    assert_eq!(classify_foreground("Notepad"), OverlayCheck::NotOverlay);
    assert_eq!(classify_foreground(""), OverlayCheck::NotOverlay);
}

#[test]
fn shell_hosts_match_by_file_name_ignoring_ascii_case() {
    assert!(is_shell_host(r"C:\Windows\SystemApps\X\StartMenuExperienceHost.exe"));
    assert!(is_shell_host(r"C:\Windows\SystemApps\SearchHost.EXE"));
    assert!(is_shell_host("searchui.exe"));
    assert!(is_shell_host(r"C:\a\shellexperiencehost.exe"));
    assert!(!is_shell_host(r"C:\Windows\explorer.exe"));
    assert!(!is_shell_host(r"C:\searchhost.exe\other.exe"));
    assert!(!is_shell_host(r"C:\x\searchhost.exe.bak"));
    assert!(!is_shell_host(""));
    assert!(!is_shell_host(r"C:\dir\"));
}

#[test]
fn hook_keys_map_by_vk_and_scan_code() {
    assert_eq!(map_key(0x5B, 0), Some(Key::Win));
    assert_eq!(map_key(0x5C, 0), Some(Key::Win));
    assert_eq!(map_key(0x09, 15), Some(Key::Tab));
    assert_eq!(map_key(0xC0, 41), Some(Key::Section), "scan code 41 wins over vk");
    assert_eq!(map_key(0x1_0051, 16), Some(Key::Q), "only the low 16 bits of vk count");
    assert_eq!(map_key(0x57, 17), Some(Key::W));
    assert_eq!(map_key(0x1B, 1), Some(Key::Esc));
    assert_eq!(map_key(0x25, 0), Some(Key::Left));
    assert_eq!(map_key(0x26, 0), Some(Key::Up));
    assert_eq!(map_key(0x27, 0), Some(Key::Right));
    assert_eq!(map_key(0x28, 0), Some(Key::Down));
    assert_eq!(map_key(0x41, 30), None);
}

#[test]
fn clicks_commit_inside_and_cancel_outside() {
    let mut d = Selection::new(1, (0, 0));
    assert_eq!(d.click(false, 3), Event::Cancel);
    assert_eq!((d.hover, d.mouse_last), (1, false));
    assert_eq!(d.click(true, 3), Event::Commit);
    assert_eq!((d.hover, d.mouse_last), (3, true));
}

#[test]
fn dialog_centers_in_the_work_area() {
    assert_eq!(centered_origin((0, 0, 1920, 1040), 300, 146), (810, 447));
    assert_eq!(centered_origin((-1920, 0, 0, 1080), 301, 100), (-1111, 490));
    // A panel wider than the work area sticks out equally on both sides.
    assert_eq!(centered_origin((0, 0, 100, 100), 103, 100), (-1, 0));
}

#[test]
fn mouse_coordinates_are_signed_16_bit() {
    assert_eq!(mouse_coords(0x0014_000A), (10, 20));
    assert_eq!(mouse_coords(0xFFFE_FFFF), (-1, -2));
    assert_eq!(mouse_coords(0x8000_7FFF), (32767, -32768));
    assert_eq!(mouse_coords(-1), (-1, -1));
}

#[test]
fn panel_bounds_are_half_open() {
    let size = (452, 146);
    assert!(in_panel(size, 0, 0));
    assert!(in_panel(size, 451, 145));
    assert!(!in_panel(size, -1, 5));
    assert!(!in_panel(size, 452, 5));
    assert!(!in_panel(size, 5, 146));
}
