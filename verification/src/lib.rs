//! Dispatch core of a global-hotkey daemon: key-event wire parsing, pipe
//! naming, the chord state machine, and keybind resolution.
//!
//! The surrounding daemon owns the display server, the child-process
//! supervisor and the named-pipe transport; this crate owns the decisions
//! the event loop makes and proves them correct.
use vstd::prelude::*;

pub mod chord;
pub mod config;
pub mod keyevent;
pub mod pipes;
pub mod worker;

verus! {

/// Directory name under which the daemon keeps its runtime files.
pub const LEFTHK_DIR_NAME: &'static str = "lefthk";

} // verus!
