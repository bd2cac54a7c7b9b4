use win_app_switcher::apps::{app_windows, resource_text, wants_thumbnail, AppKey};
use win_app_switcher::memo::{Entry, Lookup, Memo};

fn key(exe: &str, aumid: Option<&str>) -> AppKey {
    AppKey { exe: exe.to_string(), aumid: aumid.map(str::to_string) }
}

#[test]
fn found_values_are_kept_for_good() {
    let mut m: Memo<String> = Memo::new();
    assert!(matches!(m.lookup("code.exe", 0, 60_000), Lookup::Miss));
    m.record("code.exe", Entry::Found("Visual Studio Code".to_string()));
    match m.lookup("code.exe", u64::MAX, 60_000) {
        Lookup::Hit(v) => assert_eq!(v, "Visual Studio Code"),
        _ => panic!("a found value must be kept"),
    }
    assert!(matches!(m.lookup("other.exe", 5, 60_000), Lookup::Miss));
}

#[test]
fn failures_are_retried_after_the_window() {
    let mut m: Memo<()> = Memo::new();
    m.record("Chrome._crx_x", Entry::FailedAt(1_000));
    assert!(matches!(m.lookup("Chrome._crx_x", 1_000, 60_000), Lookup::RecentFailure));
    assert!(matches!(m.lookup("Chrome._crx_x", 60_999, 60_000), Lookup::RecentFailure));
    assert!(matches!(m.lookup("Chrome._crx_x", 61_000, 60_000), Lookup::Miss));
    // A clock reading before the failure counts as no time elapsed.
    assert!(matches!(m.lookup("Chrome._crx_x", 10, 60_000), Lookup::RecentFailure));
    m.record("Chrome._crx_x", Entry::Found(()));
    assert!(matches!(m.lookup("Chrome._crx_x", 61_000, 60_000), Lookup::Hit(_)));
}

#[test]
fn recording_replaces_only_its_own_entry() {
    let mut m: Memo<u32> = Memo::new();
    m.record("a", Entry::Found(1));
    m.record("b", Entry::Found(2));
    m.record("a", Entry::Found(3));
    assert!(matches!(m.lookup("a", 0, 0), Lookup::Hit(&3)));
    assert!(matches!(m.lookup("b", 0, 0), Lookup::Hit(&2)));
}

#[test]
fn foreground_app_windows_keep_z_order_and_skip_minimized() {
    let chrome = key("chrome.exe", None);
    let pwa = key("chrome.exe", Some("Chrome._crx_chatgpt"));
    let code = key("code.exe", None);
    let windows = vec![
        (1, chrome.clone(), false),
        (2, pwa.clone(), false),
        (3, chrome.clone(), true),
        (4, code.clone(), false),
        (5, chrome.clone(), false),
    ];
    assert_eq!(app_windows(&chrome, windows.clone(), true), vec![1, 3, 5]);
    assert_eq!(app_windows(&chrome, windows.clone(), false), vec![1, 5]);
    assert_eq!(app_windows(&pwa, windows.clone(), false), vec![2]);
    assert_eq!(app_windows(&key("x.exe", None), windows, true), Vec::<usize>::new());
}

#[test]
fn version_resource_text_stops_at_nul_and_trims() {
    assert_eq!(resource_text("Visual Studio Code"), Some("Visual Studio Code".to_string()));
    assert_eq!(resource_text("  Spotify \0Comp"), Some("Spotify".to_string()));
    assert_eq!(resource_text("\u{a0}Notes\t"), Some("Notes".to_string()));
    assert_eq!(resource_text(" \0Name"), None);
    assert_eq!(resource_text(""), None);
}

#[test]
fn png_sources_render_as_thumbnails() {
    assert!(wants_thumbnail(Some("png")));
    assert!(wants_thumbnail(Some("PNG")));
    assert!(wants_thumbnail(Some("Png")));
    assert!(!wants_thumbnail(Some("exe")));
    assert!(!wants_thumbnail(Some("pngx")));
    assert!(!wants_thumbnail(Some("")));
    assert!(!wants_thumbnail(None));
}
