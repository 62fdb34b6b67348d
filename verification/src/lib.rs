//! Core of a pane/command navigator for a terminal-workspace host.
//!
//! The library is a pure event reducer: the host hands it events (tab and
//! pane updates, key presses, a permission decision) and remote-control
//! pipe messages; the reducer updates its state and returns a redraw flag
//! together with the list of calls the host should perform (focus a pane,
//! hide the controller surface, spawn a command). The host adapter around
//! it does the actual I/O.

pub mod pane;
pub mod pipe;
pub mod state;
pub mod strutil;
pub mod user_command;
