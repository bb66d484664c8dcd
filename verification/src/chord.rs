//! The chord context: the state a multi-key sequence leaves between loop
//! iterations. `keybinds` narrows resolution to a subset while a chord is
//! active; `elapsed` marks that the chord timed out or completed and the
//! next iteration must fall back to the full set.
use vstd::prelude::*;
use crate::config::Keybind;

verus! {

/// Chord state: `Idle` is `keybinds: None, elapsed: false`; a `Some`
/// subset with `elapsed: false` is an active chord; `elapsed: true` marks
/// an expired one, cleared by the next evaluation.
#[derive(Debug, Clone, PartialEq, Eq)]
pub struct Chord {
    pub keybinds: Option<Vec<Keybind>>,
    pub elapsed: bool,
}

impl Chord {
    /// True of the idle state: no restriction, nothing elapsed.
    pub open spec fn is_idle(&self) -> bool {
        self.keybinds is None && !self.elapsed
    }

    /// The initial chord context: idle.
    pub fn new() -> (c: Self)
        ensures
            c.is_idle(),
    {
        Self { keybinds: None, elapsed: false }
    }
}

impl Default for Chord {
    fn default() -> (c: Self)
        ensures
            c.is_idle(),
    {
        Chord::new()
    }
}

} // verus!
