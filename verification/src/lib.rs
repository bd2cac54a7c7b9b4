//! Decision logic of a macOS-style application switcher for Windows: the
//! keyboard-hook state machine, the window filter, grouping of windows into
//! applications, the switcher session, icon pixel fixes, manifest parsing,
//! memo tables for shell lookups and release tags.
//! The operating-system glue lives outside this library and feeds it plain
//! values.

pub mod apps;
pub mod config;
pub mod desktop;
pub mod filter;
pub mod hook;
pub mod manifest;
pub mod memo;
pub mod pixels;
pub mod switcher;
pub mod text;
pub mod ui;
pub mod update;

