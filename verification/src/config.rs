//! The configuration-owned keybind record: a key name, a set of modifier
//! names, and the command the bind triggers. Immutable for the worker's
//! lifetime once loaded.
use vstd::prelude::*;

verus! {

/// An association between a key name plus modifier set and a command
/// descriptor. The names are translated to a platform (mask, keysym) pair
/// by the display collaborator at resolution time.
#[derive(Debug, PartialEq, Eq)]
pub struct Keybind {
    pub key: String,
    pub modifier: Vec<String>,
    pub command: String,
}

/// The mathematical content of a keybind: its three fields as character
/// sequences.
pub struct KeybindView {
    pub key: Seq<char>,
    pub modifier: Seq<Seq<char>>,
    pub command: Seq<char>,
}

impl View for Keybind {
    type V = KeybindView;

    open spec fn view(&self) -> KeybindView {
        KeybindView {
            key: self.key@,
            modifier: self.modifier.deep_view(),
            command: self.command@,
        }
    }
}

impl Clone for Keybind {
    fn clone(&self) -> (r: Self)
        ensures
            r@ == self@,
    {
        let mut modifier: Vec<String> = Vec::new();
        let mut i: usize = 0;
        while i < self.modifier.len()
            invariant
                i <= self.modifier.len(),
                modifier.len() == i,
                forall|j: int| 0 <= j < i ==> modifier@[j] == self.modifier@[j],
            decreases self.modifier.len() - i,
        {
            modifier.push(self.modifier[i].clone());
            i += 1;
        }
        let r = Keybind { key: self.key.clone(), modifier, command: self.command.clone() };
        proof {
            assert(r.modifier.deep_view() =~= self.modifier.deep_view());
        }
        r
    }
}

} // verus!
