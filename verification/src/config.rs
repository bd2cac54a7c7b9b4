//! The settings that choose between discrete behaviors. The whole
//! `config.toml` (with its fractional `scale`) is read outside the library.
use vstd::prelude::*;

verus! {

/// Color scheme of the dialog.
#[derive(Debug, Clone, Copy, PartialEq, Eq, Structural)]
pub enum Theme {
    Auto,
    Light,
    Dark,
}

/// Which virtual desktops' windows the switcher lists.
#[derive(Debug, Clone, Copy, PartialEq, Eq, Structural)]
pub enum DesktopFilter {
    Current,
    All,
}

/// The monitor the dialog opens on.
#[derive(Debug, Clone, Copy, PartialEq, Eq, Structural)]
pub enum DialogMonitor {
    Mouse,
    Primary,
}

} // verus!
