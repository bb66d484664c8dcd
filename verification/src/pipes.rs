//! Naming of the named-pipe transports: each pipe's filename carries the
//! identifier of the active display, so sessions do not collide.
//!
//! The display identifier comes from the display environment variable
//! (`host:display.screen` form); the caller reads the variable and hands
//! its value in, so the derivation is a function of plain values.
use vstd::prelude::*;

verus! {

use vstd::string::StrSliceExecFns;
use vstd::string::StringExecFns;

/// True when `i` is the position of the last colon in `s`.
pub open spec fn is_last_colon(s: Seq<char>, i: int) -> bool {
    &&& 0 <= i < s.len()
    &&& s[i] == ':'
    &&& forall|j: int| i < j < s.len() ==> #[trigger] s[j] != ':'
}

/// The display identifier derived from the value of the display variable:
/// the text after the last colon, or `"0"` when no colon splits the value.
pub open spec fn spec_display_id(s: Seq<char>) -> Seq<char> {
    if exists|i: int| is_last_colon(s, i) {
        let i = choose|i: int| is_last_colon(s, i);
        s.subrange(i + 1, s.len() as int)
    } else {
        seq!['0']
    }
}

/// The identifier when the variable itself is absent.
pub open spec fn spec_display_id_opt(display: Option<Seq<char>>) -> Seq<char> {
    match display {
        Some(s) => spec_display_id(s),
        None => seq!['0'],
    }
}

pub proof fn lemma_last_colon_unique(s: Seq<char>, i: int, j: int)
    requires
        is_last_colon(s, i),
        is_last_colon(s, j),
    ensures
        i == j,
{
    if i < j {
        assert(s[j] != ':');
    }
    if j < i {
        assert(s[i] != ':');
    }
}

/// Derives the per-session display identifier from the display variable's
/// value, `None` standing for an unset variable.
pub fn display_id(display: Option<&str>) -> (r: String)
    ensures
        display matches Some(d) ==> r@ == spec_display_id(d@),
        display is None ==> r@ == seq!['0'],
{
    match display {
        None => {
            let r = String::from_str("0");
            proof {
                reveal_strlit("0");
                assert(r@ =~= seq!['0']);
            }
            r
        },
        Some(d) => {
            let n = d.unicode_len();
            let mut idx: usize = 0;
            let mut last: usize = 0;
            let mut found: bool = false;
            while idx < n
                invariant
                    idx <= n,
                    n as nat == d@.len(),
                    found ==> last < idx && d@[last as int] == ':' && forall|j: int|
                        last < j < idx ==> #[trigger] d@[j] != ':',
                    !found ==> forall|j: int| 0 <= j < idx ==> #[trigger] d@[j] != ':',
                decreases n - idx,
            {
                let c = d.get_char(idx);
                if c == ':' {
                    last = idx;
                    found = true;
                }
                idx += 1;
            }
            if found {
                let tail = d.substring_char(last + 1, n);
                let r = tail.to_owned();
                proof {
                    assert(is_last_colon(d@, last as int));
                    let w = choose|w: int| is_last_colon(d@, w);
                    lemma_last_colon_unique(d@, w, last as int);
                }
                r
            } else {
                let r = String::from_str("0");
                proof {
                    assert(forall|i: int| !is_last_colon(d@, i));
                    reveal_strlit("0");
                    assert(r@ =~= seq!['0']);
                }
                r
            }
        },
    }
}

/// The filename of the key-event pipe for a session: the channel prefix,
/// the display identifier, and the pipe suffix.
pub open spec fn spec_key_pipe_name(display: Option<Seq<char>>) -> Seq<char> {
    "keyevent-"@ + spec_display_id_opt(display) + ".pipe"@
}

/// Builds the key-event pipe's filename from the display variable's value.
pub fn key_pipe_name(display: Option<&str>) -> (r: String)
    ensures
        display matches Some(d) ==> r@ == spec_key_pipe_name(Some(d@)),
        display is None ==> r@ == spec_key_pipe_name(None),
{
    let id = display_id(display);
    let mut r = String::from_str("keyevent-");
    r.append(id.as_str());
    r.append(".pipe");
    r
}

} // verus!
