//! Which top-level windows belong in a switcher, and which foreground
//! windows are shell overlays that must be dismissed before taking over.
use vstd::prelude::*;
use crate::text::{find_class, lemma_first_in, matches_at, occurs_at, to_chars, CharClass};

verus! {

/// What the window filter reads about one top-level window.
pub struct WindowFacts {
    /// The window is the shell's desktop window.
    pub is_shell_window: bool,
    pub visible: bool,
    /// Extended styles: tool window, topmost, forced onto the taskbar.
    pub tool_window: bool,
    pub topmost: bool,
    pub app_window: bool,
    /// The window has an owner other than itself.
    pub owned: bool,
    /// Its window class name.
    pub class: String,
    /// DWM reports it cloaked (not really on screen).
    pub cloaked: bool,
    /// A virtual-desktop manager was consulted and places it on another
    /// desktop than the current one.
    pub on_other_desktop: bool,
}

/// Window classes that pass the style checks but must never appear in a
/// switcher.
pub open spec fn class_blocklist() -> Seq<Seq<char>> {
    seq![
        "Shell_TrayWnd"@,
        "DV2ControlHost"@,
        "MsgrIMEWindowClass"@,
        "SysShadow"@,
        "Button"@,
        "Windows.UI.Core.CoreWindow"@,
        "Dwm"@,
    ]
}

/// The switcher's window filter: not the desktop, visible, not a tool
/// window, not a topmost or owned window unless forced onto the taskbar
/// (owned dialogs are represented by their owner), not a blocklisted class,
/// and not cloaked — except that a window cloaked because it lives on
/// another virtual desktop is kept when the manager says so.
pub open spec fn eligible_spec(f: WindowFacts) -> bool {
    &&& !f.is_shell_window
    &&& f.visible
    &&& !f.tool_window
    &&& !(f.topmost && !f.app_window)
    &&& !(f.owned && !f.app_window)
    &&& !class_blocklist().contains(f.class@)
    &&& (!f.cloaked || f.on_other_desktop)
}

/// Whether `v` holds exactly `w`.
fn equals_chars(v: &Vec<char>, w: &Vec<char>) -> (r: bool)
    ensures
        r == (v@ == w@),
{
    let r = v.len() == w.len() && matches_at(v, 0, v.len(), w);
    proof {
        assert(v@.subrange(0, v@.len() as int) =~= v@);
        if v@.len() == w@.len() {
            assert(v@.subrange(0, w@.len() as int) =~= v@);
        }
    }
    r
}

/// Whether a window belongs in a switcher.
pub fn is_eligible(f: &WindowFacts) -> (r: bool)
    ensures
        r == eligible_spec(*f),
{
    if f.is_shell_window || !f.visible || f.tool_window {
        return false;
    }
    if f.topmost && !f.app_window {
        return false;
    }
    if f.owned && !f.app_window {
        return false;
    }
    let class = to_chars(f.class.as_str());
    let blocklist = [
        to_chars("Shell_TrayWnd"),
        to_chars("DV2ControlHost"),
        to_chars("MsgrIMEWindowClass"),
        to_chars("SysShadow"),
        to_chars("Button"),
        to_chars("Windows.UI.Core.CoreWindow"),
        to_chars("Dwm"),
    ];
    let mut k: usize = 0;
    while k < 7
        invariant
            k <= 7,
            class@ == f.class@,
            forall|j: int| 0 <= j < 7 ==> #[trigger] blocklist@[j]@ == class_blocklist()[j],
            forall|j: int| 0 <= j < k ==> class_blocklist()[j] != class@,
        decreases 7 - k,
    {
        if equals_chars(&class, &blocklist[k]) {
            assert(class_blocklist().contains(f.class@)) by {
                assert(class_blocklist()[k as int] == f.class@);
            }
            return false;
        }
        k += 1;
    }
    assert(!class_blocklist().contains(f.class@));
    !f.cloaked || f.on_other_desktop
}

/// How the class of the foreground window settles whether it is a shell
/// overlay.
#[derive(Debug, Clone, Copy, PartialEq, Eq, Structural)]
pub enum OverlayCheck {
    /// A taskbar flyout, the taskbar's XAML host or its own menu loop.
    Overlay,
    /// Not a shell overlay.
    NotOverlay,
    /// A CoreWindow: an overlay only when hosted by a shell process, which
    /// `is_shell_host` decides from the host's exe path.
    AskHostExe,
}

pub open spec fn classify_foreground_spec(class: Seq<char>) -> OverlayCheck {
    if class == "Xaml_WindowedPopupClass"@ || class == "XamlExplorerHostIslandWindow"@ || class
        == "Shell_TrayWnd"@ {
        OverlayCheck::Overlay
    } else if class == "Windows.UI.Core.CoreWindow"@ {
        OverlayCheck::AskHostExe
    } else {
        OverlayCheck::NotOverlay
    }
}

/// Classify the foreground window by its class name.
pub fn classify_foreground(class: &str) -> (r: OverlayCheck)
    ensures
        r == classify_foreground_spec(class@),
{
    let c = to_chars(class);
    if equals_chars(&c, &to_chars("Xaml_WindowedPopupClass")) || equals_chars(
        &c,
        &to_chars("XamlExplorerHostIslandWindow"),
    ) || equals_chars(&c, &to_chars("Shell_TrayWnd")) {
        OverlayCheck::Overlay
    } else if equals_chars(&c, &to_chars("Windows.UI.Core.CoreWindow")) {
        OverlayCheck::AskHostExe
    } else {
        OverlayCheck::NotOverlay
    }
}

/// Code point of the ASCII lowercase of one character.
pub open spec fn ascii_lower(c: char) -> u32 {
    if 'A' <= c <= 'Z' {
        ((c as u32) + 32) as u32
    } else {
        c as u32
    }
}

/// Code points of a character sequence.
pub open spec fn codes(s: Seq<char>) -> Seq<u32> {
    s.map_values(|c: char| c as u32)
}

/// The last `\`-separated segment of a path (the whole path without `\`).
pub open spec fn last_segment(path: Seq<char>) -> Seq<char> {
    path.skip(last_backslash_end(path))
}

/// Index just past the last `\` of `path`, or 0.
pub open spec fn last_backslash_end(path: Seq<char>) -> int
    decreases path.len(),
{
    if path.len() == 0 {
        0
    } else if path.last() == '\\' {
        path.len() as int
    } else {
        last_backslash_end(path.drop_last())
    }
}

/// Processes that host the Start menu, search and Win10 shell flyouts.
pub open spec fn shell_hosts() -> Seq<Seq<char>> {
    seq![
        "startmenuexperiencehost.exe"@,
        "searchhost.exe"@,
        "searchapp.exe"@,
        "searchui.exe"@,
        "shellexperiencehost.exe"@,
    ]
}

/// Whether a CoreWindow's host exe (its path's file name, ASCII
/// case-insensitively) is one of the shell's own overlay hosts.
pub open spec fn is_shell_host_spec(exe_path: Seq<char>) -> bool {
    shell_hosts().map_values(|h: Seq<char>| codes(h)).contains(
        last_segment(exe_path).map_values(|c: char| ascii_lower(c)),
    )
}

/// Whether `v[from..]`, ASCII-lowercased, equals `w`.
pub(crate) fn lower_equals(v: &Vec<char>, from: usize, w: &Vec<char>) -> (r: bool)
    requires
        from <= v@.len(),
    ensures
        r == (v@.skip(from as int).map_values(|c: char| ascii_lower(c)) == codes(w@)),
{
    let n = v.len();
    let ghost low = v@.skip(from as int).map_values(|c: char| ascii_lower(c));
    if n - from != w.len() {
        assert(low.len() != codes(w@).len());
        return false;
    }
    let mut k: usize = 0;
    while k < w.len()
        invariant
            from + w@.len() == n,
            n == v@.len(),
            k <= w@.len(),
            low == v@.skip(from as int).map_values(|c: char| ascii_lower(c)),
            forall|j: int| 0 <= j < k ==> low[j] == codes(w@)[j],
        decreases w.len() - k,
    {
        let c = v[from + k];
        let code = if 'A' <= c && c <= 'Z' {
            (c as u32) + 32
        } else {
            c as u32
        };
        assert(low[k as int] == ascii_lower(c));
        if code != w[k] as u32 {
            assert(low[k as int] != codes(w@)[k as int]);
            return false;
        }
        k += 1;
    }
    assert(low =~= codes(w@));
    true
}

/// Whether the exe at `exe_path` hosts shell overlays.
pub fn is_shell_host(exe_path: &str) -> (r: bool)
    ensures
        r == is_shell_host_spec(exe_path@),
{
    let p = to_chars(exe_path);
    // Index just past the last backslash.
    let mut k = p.len();
    assert(p@.take(p@.len() as int) =~= p@);
    while k > 0 && p[k - 1] != '\\'
        invariant
            k <= p@.len(),
            last_backslash_end(p@) == last_backslash_end(p@.take(k as int)),
        decreases k,
    {
        assert(p@.take(k as int).drop_last() =~= p@.take(k - 1));
        k -= 1;
    }
    proof {
        assert(p@.take(p@.len() as int) =~= p@);
        if k > 0 {
            assert(p@.take(k as int).last() == '\\');
        }
    }
    let hosts = [
        to_chars("startmenuexperiencehost.exe"),
        to_chars("searchhost.exe"),
        to_chars("searchapp.exe"),
        to_chars("searchui.exe"),
        to_chars("shellexperiencehost.exe"),
    ];
    let ghost name = last_segment(p@).map_values(|c: char| ascii_lower(c));
    let mut j: usize = 0;
    while j < 5
        invariant
            j <= 5,
            k <= p@.len(),
            p@ == exe_path@,
            last_backslash_end(p@) == k,
            name == last_segment(p@).map_values(|c: char| ascii_lower(c)),
            forall|i: int| 0 <= i < 5 ==> #[trigger] hosts@[i]@ == shell_hosts()[i],
            forall|i: int| 0 <= i < j ==> codes(shell_hosts()[i]) != name,
        decreases 5 - j,
    {
        if lower_equals(&p, k, &hosts[j]) {
            assert(shell_hosts().map_values(|h: Seq<char>| codes(h))[j as int] == name);
            return true;
        }
        j += 1;
    }
    let ghost hs = shell_hosts().map_values(|h: Seq<char>| codes(h));
    assert forall|i: int| 0 <= i < hs.len() implies #[trigger] hs[i] != name by {
        assert(hs[i] == codes(shell_hosts()[i]));
    }
    false
}

} // verus!
