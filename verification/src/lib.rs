//! Core of a window switcher / application launcher for a tiling window
//! manager: it models the selectable candidates (open windows to focus,
//! programs to launch), enumerates them from a window-tree snapshot and from
//! search-path directory listings, and maps a selected candidate to the
//! window-manager command that realises the choice.
//!
//! All I/O (the window-manager IPC socket, the interactive fuzzy selector,
//! environment and directory access) lives outside this crate; the functions
//! here are pure transformations over plain values.

pub mod candidate;
pub mod order;
pub mod paths;
pub mod windows;
