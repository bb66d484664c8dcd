//! The two-field wire record carried over the key-event pipe, and its
//! line decoder: a record is `<keysym>,<modmask>`, both fields base-10
//! unsigned 32-bit integers.
use vstd::prelude::*;

verus! {

use vstd::string::StrSliceExecFns;

pub type Keysym = u32;

pub type ModMask = u32;

/// A decoded key observation: which symbol was pressed and which
/// modifiers were held.
#[derive(Debug, Clone, Copy, PartialEq, Eq, Structural)]
pub struct KeyEvent {
    pub keysym: Keysym,
    pub modmask: ModMask,
}

/// True when `c` is an ASCII decimal digit.
pub open spec fn is_digit(c: char) -> bool {
    48 <= c as int && c as int <= 57
}

/// Numeric value of an ASCII decimal digit.
pub open spec fn digit_value(c: char) -> int {
    c as int - 48
}

pub open spec fn all_digits(s: Seq<char>) -> bool {
    forall|i: int| 0 <= i < s.len() ==> is_digit(#[trigger] s[i])
}

/// Value of a digit string read most-significant first.
pub open spec fn digits_value(s: Seq<char>) -> int
    decreases s.len(),
{
    if s.len() == 0 {
        0
    } else {
        digits_value(s.drop_last()) * 10 + digit_value(s.last())
    }
}

/// The digits of a numeral, after an optional leading `+` sign
/// (`u32::from_str` accepts one).
pub open spec fn numeral_digits(s: Seq<char>) -> Seq<char> {
    if s.len() > 0 && s[0] == '+' {
        s.drop_first()
    } else {
        s
    }
}

/// True when `s` is text that parses as a `u32`: at least one digit after
/// an optional `+`, nothing else, and a value within range.
pub open spec fn is_u32_numeral(s: Seq<char>) -> bool {
    &&& numeral_digits(s).len() > 0
    &&& all_digits(numeral_digits(s))
    &&& digits_value(numeral_digits(s)) <= u32::MAX
}

pub open spec fn numeral_value(s: Seq<char>) -> int {
    digits_value(numeral_digits(s))
}

/// True when `i` is the position of the single comma of a well-formed
/// record, with a `u32` numeral on each side.
pub open spec fn valid_split_at(s: Seq<char>, i: int) -> bool {
    &&& 0 <= i < s.len()
    &&& s[i] == ','
    &&& forall|j: int| 0 <= j < s.len() && j != i ==> #[trigger] s[j] != ','
    &&& is_u32_numeral(s.subrange(0, i))
    &&& is_u32_numeral(s.subrange(i + 1, s.len() as int))
}

/// True when the line decodes to a key event.
pub open spec fn line_parses(s: Seq<char>) -> bool {
    exists|i: int| valid_split_at(s, i)
}

/// The event a well-formed line decodes to.
pub open spec fn parsed_event(s: Seq<char>) -> KeyEvent
    recommends
        line_parses(s),
{
    let i = choose|i: int| valid_split_at(s, i);
    KeyEvent {
        keysym: numeral_value(s.subrange(0, i)) as u32,
        modmask: numeral_value(s.subrange(i + 1, s.len() as int)) as u32,
    }
}

pub proof fn lemma_valid_split_unique(s: Seq<char>, i: int, j: int)
    requires
        valid_split_at(s, i),
        valid_split_at(s, j),
    ensures
        i == j,
{
    if i != j {
        assert(s[j] == ',');
        assert(s[j] != ',');
    }
}

proof fn lemma_digits_value_nonneg(s: Seq<char>)
    requires
        all_digits(s),
    ensures
        digits_value(s) >= 0,
    decreases s.len(),
{
    if s.len() > 0 {
        assert(all_digits(s.drop_last()));
        lemma_digits_value_nonneg(s.drop_last());
        assert(is_digit(s.last()));
    }
}

proof fn lemma_digits_value_prefix_le(s: Seq<char>, i: int)
    requires
        all_digits(s),
        0 <= i <= s.len(),
    ensures
        digits_value(s.subrange(0, i)) <= digits_value(s),
    decreases s.len() - i,
{
    if i == s.len() {
        assert(s.subrange(0, i) =~= s);
    } else {
        let pre = s.subrange(0, i);
        let ext = s.subrange(0, i + 1);
        assert(ext.drop_last() =~= pre);
        assert(ext.last() == s[i]);
        assert(all_digits(pre));
        lemma_digits_value_nonneg(pre);
        assert(digits_value(ext) == digits_value(pre) * 10 + digit_value(s[i]));
        assert(is_digit(s[i]));
        lemma_digits_value_prefix_le(s, i + 1);
    }
}

impl KeyEvent {
    /// Decodes one line of the wire format. Returns `Ok` exactly on lines
    /// of the shape `<keysym>,<modmask>` with both fields in `u32` range;
    /// every other line is rejected.
    pub fn try_from(value: String) -> (r: Result<KeyEvent, ()>)
        ensures
            r is Ok <==> line_parses(value@),
            r matches Ok(ev) ==> ev == parsed_event(value@),
    {
        let s = value.as_str();
        let n = s.unicode_len();
        let mut idx: usize = 0;
        let mut first: usize = 0;
        let mut found: bool = false;
        while idx < n
            invariant
                idx <= n,
                n as nat == s@.len(),
                s@ == value@,
                found ==> first < idx && s@[first as int] == ',' && forall|j: int|
                    0 <= j < idx && j != first ==> #[trigger] s@[j] != ',',
                !found ==> forall|j: int| 0 <= j < idx ==> #[trigger] s@[j] != ',',
            decreases n - idx,
        {
            let c = s.get_char(idx);
            if c == ',' {
                if found {
                    proof {
                        assert forall|i: int| !valid_split_at(s@, i) by {
                            if valid_split_at(s@, i) {
                                if i == first as int {
                                    assert(s@[idx as int] != ',');
                                } else {
                                    assert(s@[first as int] != ',');
                                }
                            }
                        }
                    }
                    return Err(());
                }
                first = idx;
                found = true;
            }
            idx += 1;
        }
        if !found {
            proof {
                assert forall|i: int| !valid_split_at(s@, i) by {
                    if valid_split_at(s@, i) {
                        assert(s@[i] != ',');
                    }
                }
            }
            return Err(());
        }
        let left = parse_u32_field(s, 0, first);
        let right = parse_u32_field(s, first + 1, n);
        match (left, right) {
            (Some(keysym), Some(modmask)) => {
                proof {
                    assert(valid_split_at(s@, first as int));
                    let i = choose|i: int| valid_split_at(s@, i);
                    lemma_valid_split_unique(s@, i, first as int);
                }
                Ok(KeyEvent { keysym, modmask })
            },
            _ => {
                proof {
                    assert forall|i: int| !valid_split_at(s@, i) by {
                        if valid_split_at(s@, i) {
                            if i != first as int {
                                assert(s@[first as int] != ',');
                            }
                        }
                    }
                }
                Err(())
            },
        }
    }
}

/// The ASCII digit character for a value below ten.
pub open spec fn dec_digit(d: int) -> char
    recommends
        0 <= d < 10,
{
    if d == 0 {
        '0'
    } else if d == 1 {
        '1'
    } else if d == 2 {
        '2'
    } else if d == 3 {
        '3'
    } else if d == 4 {
        '4'
    } else if d == 5 {
        '5'
    } else if d == 6 {
        '6'
    } else if d == 7 {
        '7'
    } else if d == 8 {
        '8'
    } else {
        '9'
    }
}

/// The canonical base-10 rendering of `n`, most-significant digit first,
/// with no sign and no leading zeros.
pub open spec fn dec_rep(n: nat) -> Seq<char>
    decreases n,
{
    if n < 10 {
        seq![dec_digit(n as int)]
    } else {
        dec_rep(n / 10).push(dec_digit((n % 10) as int))
    }
}

proof fn lemma_dec_rep_digits(n: nat)
    ensures
        dec_rep(n).len() > 0,
        all_digits(dec_rep(n)),
        digits_value(dec_rep(n)) == n,
    decreases n,
{
    if n < 10 {
        let s = dec_rep(n);
        assert(s.len() == 1);
        assert(is_digit(s[0]));
        assert(s.drop_last() =~= Seq::<char>::empty());
        assert(digits_value(Seq::<char>::empty()) == 0);
        assert(s.last() == s[0]);
        assert(digits_value(s) == digits_value(s.drop_last()) * 10 + digit_value(s.last()));
    } else {
        lemma_dec_rep_digits(n / 10);
        let pre = dec_rep(n / 10);
        let s = dec_rep(n);
        assert(s.drop_last() =~= pre);
        assert(s.last() == dec_digit((n % 10) as int));
        assert(forall|i: int| 0 <= i < s.len() ==> is_digit(#[trigger] s[i])) by {
            assert(forall|i: int| 0 <= i < pre.len() ==> s[i] == pre[i]);
        }
        assert(digits_value(s) == digits_value(pre) * 10 + digit_value(s.last()));
        assert(digit_value(dec_digit((n % 10) as int)) == n % 10);
        assert(digits_value(s) == (n / 10) * 10 + n % 10);
    }
}

/// The wire encoding of a key event: the two fields rendered in decimal,
/// joined by a comma.
pub open spec fn encoded_line(keysym: u32, modmask: u32) -> Seq<char> {
    dec_rep(keysym as nat) + seq![','] + dec_rep(modmask as nat)
}

/// Round trip: a line formatted from any two `u32` fields decodes back to
/// exactly those fields.
pub proof fn lemma_key_event_round_trip(keysym: u32, modmask: u32)
    ensures
        line_parses(encoded_line(keysym, modmask)),
        parsed_event(encoded_line(keysym, modmask)) == (KeyEvent { keysym, modmask }),
{
    lemma_dec_rep_digits(keysym as nat);
    lemma_dec_rep_digits(modmask as nat);
    let a = dec_rep(keysym as nat);
    let b = dec_rep(modmask as nat);
    let s = encoded_line(keysym, modmask);
    let i = a.len() as int;
    assert(s[i] == ',');
    assert(s.subrange(0, i) =~= a);
    assert(s.subrange(i + 1, s.len() as int) =~= b);
    assert(forall|j: int| 0 <= j < s.len() && j != i ==> #[trigger] s[j] != ',') by {
        assert(forall|j: int| 0 <= j < a.len() ==> s[j] == a[j]);
        assert(forall|j: int| i < j < s.len() ==> s[j] == b[j - i - 1]);
        assert(forall|j: int| 0 <= j < a.len() ==> is_digit(#[trigger] a[j]));
        assert(forall|j: int| 0 <= j < b.len() ==> is_digit(#[trigger] b[j]));
    }
    assert(numeral_digits(a) == a) by {
        assert(is_digit(a[0]));
    }
    assert(numeral_digits(b) == b) by {
        assert(is_digit(b[0]));
    }
    assert(valid_split_at(s, i));
    let w = choose|w: int| valid_split_at(s, w);
    lemma_valid_split_unique(s, w, i);
}

/// Parses `s[lo..hi]` (in characters) as a `u32` numeral.
fn parse_u32_field(s: &str, lo: usize, hi: usize) -> (r: Option<u32>)
    requires
        lo <= hi <= s@.len(),
    ensures
        match r {
            Some(v) => is_u32_numeral(s@.subrange(lo as int, hi as int)) && v as int
                == numeral_value(s@.subrange(lo as int, hi as int)),
            None => !is_u32_numeral(s@.subrange(lo as int, hi as int)),
        },
{
    let ghost field: Seq<char> = s@.subrange(lo as int, hi as int);
    let start: usize;
    if lo < hi && s.get_char(lo) == '+' {
        start = lo + 1;
    } else {
        start = lo;
    }
    proof {
        assert(numeral_digits(field) =~= s@.subrange(start as int, hi as int));
    }
    if start == hi {
        return None;
    }
    let ghost digits: Seq<char> = s@.subrange(start as int, hi as int);
    let mut acc: u32 = 0;
    let mut k: usize = start;
    while k < hi
        invariant
            lo <= start <= k <= hi <= s@.len(),
            field == s@.subrange(lo as int, hi as int),
            digits == s@.subrange(start as int, hi as int),
            numeral_digits(field) == digits,
            all_digits(digits.subrange(0, k - start)),
            acc as int == digits_value(digits.subrange(0, k - start)),
        decreases hi - k,
    {
        let c = s.get_char(k);
        let cv = c as u32;
        proof {
            assert(digits[k - start] == c);
        }
        if cv < 48 || cv > 57 {
            proof {
                assert(!is_digit(digits[k - start]));
            }
            return None;
        }
        let d = cv - 48;
        let wide: u64 = acc as u64 * 10 + d as u64;
        proof {
            let j = k - start;
            assert(digits.subrange(0, j + 1).drop_last() =~= digits.subrange(0, j));
            assert(digits.subrange(0, j + 1).last() == digits[j]);
            assert(digits_value(digits.subrange(0, j + 1)) == acc * 10 + digit_value(c));
        }
        if wide > 0xFFFF_FFFF {
            proof {
                if all_digits(digits) {
                    lemma_digits_value_prefix_le(digits, k - start + 1);
                }
            }
            return None;
        }
        acc = wide as u32;
        proof {
            assert(all_digits(digits.subrange(0, k - start + 1)));
        }
        k += 1;
    }
    proof {
        assert(digits.subrange(0, (hi - start) as int) =~= digits);
    }
    Some(acc)
}

} // verus!
