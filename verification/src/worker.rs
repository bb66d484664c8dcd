//! The dispatch worker: its mode, its loop-termination status, the chord
//! expiry evaluation, and keybind resolution.
//!
//! The worker's event loop itself multiplexes display, child-supervisor
//! and pipe readiness, which the surrounding daemon owns; every decision
//! that loop makes — whether the chord expired, which keybind an observed
//! (mask, keysym) pair resolves to, what to do with a display event — is
//! a function here. Key-name translation belongs to the platform symbol
//! table, so resolution takes each candidate's translated (mask, keysym)
//! pair, `None` standing for a key name with no known keysym.
use vstd::prelude::*;
use crate::chord::Chord;
use crate::config::Keybind;

verus! {

/// Which event sources exist: direct display-server grabs, or key events
/// relayed over a pipe.
#[derive(Debug, Clone, Copy, PartialEq, Eq, Structural)]
pub enum Mode {
    Xlib,
    Pipe,
}

/// The sole loop-termination signal: the loop runs while `Continue` and
/// returns the terminal value to its caller.
#[derive(Debug, Clone, Copy, PartialEq, Eq, Hash, Structural)]
pub enum Status {
    Reload,
    Kill,
    Continue,
}

/// Mapping-change request codes of the display protocol.
pub const MAPPING_MODIFIER: i32 = 0;

pub const MAPPING_KEYBOARD: i32 = 1;

/// A display event, reduced to what dispatch reads: a key press already
/// translated to (mask, keysym), a mapping change with its request code,
/// or anything else.
#[derive(Debug, Clone, PartialEq, Eq)]
pub enum DisplayEvent {
    KeyPress { mask: u32, keysym: u32 },
    MappingNotify { request: i32 },
    Other,
}

/// What the event loop must do with one event: run a bound command,
/// report a resolution miss, refresh the keyboard mapping, or nothing.
#[derive(Debug, Clone, PartialEq, Eq)]
pub enum Action {
    Execute { command: String },
    CommandNotFound,
    RefreshMapping,
    Nothing,
}

/// Index of the first candidate whose translation equals the observed
/// (mask, keysym) pair — first-declared wins; an untranslatable candidate
/// never matches.
pub open spec fn first_match(ts: Seq<Option<(u32, u32)>>, mask: u32, keysym: u32) -> Option<int>
    decreases ts.len(),
{
    if ts.len() == 0 {
        None
    } else if ts[0] == Some((mask, keysym)) {
        Some(0)
    } else {
        match first_match(ts.drop_first(), mask, keysym) {
            Some(i) => Some(i + 1),
            None => None,
        }
    }
}

pub proof fn lemma_first_match_properties(ts: Seq<Option<(u32, u32)>>, mask: u32, keysym: u32)
    ensures
        match first_match(ts, mask, keysym) {
            Some(i) => 0 <= i < ts.len() && ts[i] == Some((mask, keysym)) && forall|j: int|
                0 <= j < i ==> #[trigger] ts[j] != Some((mask, keysym)),
            None => forall|j: int| 0 <= j < ts.len() ==> #[trigger] ts[j] != Some((mask, keysym)),
        },
    decreases ts.len(),
{
    if ts.len() > 0 && ts[0] != Some((mask, keysym)) {
        let rest = ts.drop_first();
        lemma_first_match_properties(rest, mask, keysym);
        match first_match(rest, mask, keysym) {
            Some(i) => {
                assert(ts[i + 1] == rest[i]);
                assert forall|j: int| 0 <= j < i + 1 implies #[trigger] ts[j] != Some(
                    (mask, keysym),
                ) by {
                    if j > 0 {
                        assert(rest[j - 1] == ts[j]);
                        assert(rest[j - 1] != Some((mask, keysym)));
                    }
                }
            },
            None => {
                assert forall|j: int| 0 <= j < ts.len() implies #[trigger] ts[j] != Some(
                    (mask, keysym),
                ) by {
                    if j > 0 {
                        assert(rest[j - 1] == ts[j]);
                        assert(rest[j - 1] != Some((mask, keysym)));
                    }
                }
            },
        }
    }
}

/// The dispatch worker. The display capability and the child supervisor
/// stay with the daemon that runs the loop; the worker owns the keybind
/// table, the mode, the status and the chord context.
pub struct Worker {
    pub keybinds: Vec<Keybind>,
    pub mode: Mode,
    pub status: Status,
    pub chord_ctx: Chord,
}

impl Worker {
    /// The candidate set resolution scans: the chord subset while a chord
    /// is active, the full table otherwise.
    pub open spec fn spec_candidates(&self) -> Seq<Keybind> {
        match self.chord_ctx.keybinds {
            Some(ks) => ks@,
            None => self.keybinds@,
        }
    }

    /// What `handle_key_press` must return for an observation: the first
    /// matching candidate's command, or a miss report.
    pub open spec fn key_press_action(
        &self,
        mask: u32,
        keysym: u32,
        ts: Seq<Option<(u32, u32)>>,
        a: Action,
    ) -> bool {
        match first_match(ts, mask, keysym) {
            Some(i) => a matches Action::Execute { command } && command@
                == self.spec_candidates()[i]@.command,
            None => a == Action::CommandNotFound,
        }
    }

    /// A fresh worker: given keybind table and mode, status `Continue`,
    /// chord idle.
    pub fn new(keybinds: Vec<Keybind>, mode: Mode) -> (w: Worker)
        ensures
            w.keybinds == keybinds,
            w.mode == mode,
            w.status == Status::Continue,
            w.chord_ctx.is_idle(),
    {
        Worker { keybinds, mode, status: Status::Continue, chord_ctx: Chord::new() }
    }

    /// The candidate list resolution currently scans.
    pub fn candidates(&self) -> (r: &Vec<Keybind>)
        ensures
            r@ == self.spec_candidates(),
    {
        match &self.chord_ctx.keybinds {
            Some(ks) => ks,
            None => &self.keybinds,
        }
    }

    /// Chord expiry in grab mode: when the chord has elapsed, clear it
    /// back to idle. The result says whether the caller must re-issue the
    /// full-set grab registration with the display server (while a chord
    /// was active a smaller set may have been grabbed) — exactly once,
    /// exactly when the chord had elapsed.
    pub fn evaluate_chord_xlib(&mut self) -> (regrab: bool)
        requires
            old(self).mode == Mode::Xlib,
        ensures
            regrab == old(self).chord_ctx.elapsed,
            old(self).chord_ctx.elapsed ==> final(self).chord_ctx.is_idle(),
            !old(self).chord_ctx.elapsed ==> *final(self) == *old(self),
            final(self).keybinds == old(self).keybinds,
            final(self).mode == old(self).mode,
            final(self).status == old(self).status,
    {
        if self.chord_ctx.elapsed {
            self.chord_ctx.keybinds = None;
            self.chord_ctx.elapsed = false;
            true
        } else {
            false
        }
    }

    /// Chord expiry in relay mode: the same reset, with nothing to regrab
    /// at the display level.
    pub fn evaluate_chord_pipe(&mut self)
        ensures
            old(self).chord_ctx.elapsed ==> final(self).chord_ctx.is_idle(),
            !old(self).chord_ctx.elapsed ==> *final(self) == *old(self),
            final(self).keybinds == old(self).keybinds,
            final(self).mode == old(self).mode,
            final(self).status == old(self).status,
    {
        if self.chord_ctx.elapsed {
            self.chord_ctx.keybinds = None;
            self.chord_ctx.elapsed = false;
        }
    }

    /// Resolves an observed (mask, keysym) pair against the candidate
    /// list: the first candidate whose translation equals the pair, in
    /// list order. `translations` holds, for each candidate in order, its
    /// (mask, keysym) under the platform symbol table, or `None` for an
    /// unknown key name.
    pub fn get_keybind(
        &self,
        mask_key_pair: (u32, u32),
        translations: &Vec<Option<(u32, u32)>>,
    ) -> (r: Option<Keybind>)
        requires
            translations@.len() == self.spec_candidates().len(),
        ensures
            match first_match(translations@, mask_key_pair.0, mask_key_pair.1) {
                Some(i) => r matches Some(kb) && kb@ == self.spec_candidates()[i]@,
                None => r is None,
            },
    {
        let candidates = self.candidates();
        let n = translations.len();
        let mut i: usize = 0;
        while i < n
            invariant
                i <= n,
                n == translations@.len(),
                translations@.len() == candidates@.len(),
                candidates@ == self.spec_candidates(),
                forall|j: int|
                    0 <= j < i ==> #[trigger] translations@[j] != Some(
                        (mask_key_pair.0, mask_key_pair.1),
                    ),
            decreases n - i,
        {
            if let Some(t) = translations[i] {
                if t.0 == mask_key_pair.0 && t.1 == mask_key_pair.1 {
                    proof {
                        lemma_first_match_properties(
                            translations@,
                            mask_key_pair.0,
                            mask_key_pair.1,
                        );
                    }
                    return Some(candidates[i].clone());
                }
            }
            i += 1;
        }
        proof {
            lemma_first_match_properties(translations@, mask_key_pair.0, mask_key_pair.1);
        }
        None
    }

    /// The decision for one observed key press: the command of the first
    /// matching candidate, or a "command not found" report. Turning the
    /// descriptor into a runnable command and running it stays with the
    /// command collaborator.
    pub fn handle_key_press(
        &self,
        mask: u32,
        keysym: u32,
        translations: &Vec<Option<(u32, u32)>>,
    ) -> (a: Action)
        requires
            translations@.len() == self.spec_candidates().len(),
        ensures
            self.key_press_action(mask, keysym, translations@, a),
    {
        match self.get_keybind((mask, keysym), translations) {
            Some(keybind) => Action::Execute { command: keybind.command },
            None => Action::CommandNotFound,
        }
    }

    /// The decision for one display event: a key press goes through
    /// resolution; a mapping change asks for a keyboard-mapping refresh
    /// exactly when its request concerns the modifier or keyboard
    /// mapping; every other event does nothing.
    pub fn handle_event(
        &self,
        event: &DisplayEvent,
        translations: &Vec<Option<(u32, u32)>>,
    ) -> (a: Action)
        requires
            event matches DisplayEvent::KeyPress { .. } ==> translations@.len()
                == self.spec_candidates().len(),
        ensures
            event matches DisplayEvent::KeyPress { mask, keysym } ==> self.key_press_action(
                *mask,
                *keysym,
                translations@,
                a,
            ),
            event matches DisplayEvent::MappingNotify { request } ==> a == (if *request
                == MAPPING_MODIFIER || *request == MAPPING_KEYBOARD {
                Action::RefreshMapping
            } else {
                Action::Nothing
            }),
            event is Other ==> a == Action::Nothing,
    {
        match event {
            DisplayEvent::KeyPress { mask, keysym } => self.handle_key_press(
                *mask,
                *keysym,
                translations,
            ),
            DisplayEvent::MappingNotify { request } => {
                if *request == MAPPING_MODIFIER || *request == MAPPING_KEYBOARD {
                    Action::RefreshMapping
                } else {
                    Action::Nothing
                }
            },
            DisplayEvent::Other => Action::Nothing,
        }
    }
}

/// Tie-break law: when two candidates both translate to the observed
/// (mask, keysym) pair, resolution returns a candidate no later than the
/// earlier of the two — first-declared wins on overlap.
pub proof fn lemma_resolution_tie_break(
    ts: Seq<Option<(u32, u32)>>,
    mask: u32,
    keysym: u32,
    i: int,
    j: int,
)
    requires
        0 <= i < j < ts.len(),
        ts[i] == Some((mask, keysym)),
        ts[j] == Some((mask, keysym)),
    ensures
        (first_match(ts, mask, keysym) matches Some(r) && r <= i),
{
    lemma_first_match_properties(ts, mask, keysym);
}

/// Restriction law: while a chord subset is active, resolution consults
/// the subset alone — an observation whose translation matches no subset
/// entry resolves to nothing, whatever the full table holds.
pub proof fn lemma_resolution_restricted(
    w: Worker,
    subset: Vec<Keybind>,
    ts: Seq<Option<(u32, u32)>>,
    mask: u32,
    keysym: u32,
)
    requires
        w.chord_ctx.keybinds == Some(subset),
        ts.len() == subset@.len(),
        forall|k: int| 0 <= k < ts.len() ==> #[trigger] ts[k] != Some((mask, keysym)),
    ensures
        w.spec_candidates() == subset@,
        first_match(ts, mask, keysym) is None,
{
    lemma_first_match_properties(ts, mask, keysym);
}

} // verus!

