//! The interactive choices: which profile a key press selects, and whether
//! the mods directory is cleared first.

use vstd::prelude::*;

verus! {

/// How the program ends.
pub enum Message<'a> {
    /// The work is done.
    Success(),
    /// The work failed, for the reason given.
    Error(&'a str),
    /// The user quit; nothing is left to acknowledge.
    Instant,
}

pub open spec fn is_digit(c: char) -> bool {
    48 <= c as u32 && c as u32 <= 57
}

pub open spec fn digit_value(c: char) -> int {
    c as u32 - 48
}

/// The number that the decimal digits `s` write.
pub open spec fn digits_value(s: Seq<char>) -> int
    decreases s.len(),
{
    if s.len() == 0 {
        0
    } else {
        digits_value(s.drop_last()) * 10 + digit_value(s.last())
    }
}

pub open spec fn all_digits(s: Seq<char>) -> bool {
    forall|i: int| 0 <= i < s.len() ==> is_digit(#[trigger] s[i])
}

/// `s` without one leading `+`.
pub open spec fn unsigned_part(s: Seq<char>) -> Seq<char> {
    if s.len() > 0 && s[0] == '+' {
        s.drop_first()
    } else {
        s
    }
}

/// What reading `s` as a `usize` gives, as `str::parse` does: an optional
/// `+` and at least one decimal digit, with a value that fits.
pub open spec fn parse_spec(s: Seq<char>) -> Option<nat> {
    let d = unsigned_part(s);
    if d.len() > 0 && all_digits(d) && digits_value(d) <= usize::MAX {
        Some(digits_value(d) as nat)
    } else {
        None
    }
}

proof fn lemma_digits_value_nonneg(s: Seq<char>)
    requires
        all_digits(s),
    ensures
        digits_value(s) >= 0,
    decreases s.len(),
{
    if s.len() > 0 {
        lemma_digits_value_nonneg(s.drop_last());
    }
}

/// `s` read as a decimal `usize`, or `None` where it is not one.
pub fn parse_number(s: &str) -> (r: Option<usize>)
    ensures
        match r {
            Some(n) => parse_spec(s@) == Some(n as nat),
            None => parse_spec(s@) is None,
        },
{
    let n = s.unicode_len();
    let start: usize = if n > 0 && s.get_char(0) == '+' {
        1
    } else {
        0
    };
    let ghost d = unsigned_part(s@);
    assert(d =~= s@.subrange(start as int, n as int));
    if start == n {
        return None;
    }
    let mut value: usize = 0;
    let mut overflow = false;
    let mut i: usize = start;
    assert(d.subrange(0, 0) =~= Seq::<char>::empty());
    while i < n
        invariant
            start <= i <= n,
            n == s@.len(),
            d == s@.subrange(start as int, n as int),
            d == unsigned_part(s@),
            all_digits(d.subrange(0, i - start)),
            !overflow ==> value == digits_value(d.subrange(0, i - start)),
            overflow ==> digits_value(d.subrange(0, i - start)) > usize::MAX,
        decreases n - i,
    {
        let c = s.get_char(i);
        let ghost prev = d.subrange(0, i - start);
        let ghost next = d.subrange(0, i - start + 1);
        assert(next.drop_last() =~= prev);
        assert(next.last() == c);
        let u = c as u32;
        if u < 48 || u > 57 {
            assert(!all_digits(d)) by {
                assert(d[i - start] == c);
            }
            return None;
        }
        assert(all_digits(next)) by {
            assert forall|k: int| 0 <= k < next.len() implies is_digit(#[trigger] next[k]) by {
                if k < prev.len() {
                    assert(next[k] == prev[k]);
                }
            }
        }
        proof {
            lemma_digits_value_nonneg(prev);
        }
        let dv: usize = (u - 48) as usize;
        if !overflow {
            if value <= (usize::MAX - dv) / 10 {
                assert(value * 10 + dv <= usize::MAX) by (nonlinear_arith)
                    requires
                        value <= (usize::MAX - dv) / 10,
                        dv <= 9,
                ;
                value = value * 10 + dv;
            } else {
                assert(value * 10 + dv > usize::MAX) by (nonlinear_arith)
                    requires
                        value > (usize::MAX - dv) / 10,
                        dv <= 9,
                ;
                overflow = true;
            }
        } else {
            assert(digits_value(prev) * 10 + dv > usize::MAX) by (nonlinear_arith)
                requires
                    digits_value(prev) > usize::MAX,
                    dv >= 0,
            ;
        }
        i = i + 1;
    }
    assert(d.subrange(0, n - start) =~= d);
    if overflow {
        None
    } else {
        Some(value)
    }
}

/// What a key press on the profile menu selects.
#[derive(Debug, Clone, Copy, PartialEq, Eq, Structural)]
pub enum Selection {
    /// Leave the program.
    Quit,
    /// The key is not a number; ask again.
    NotANumber,
    /// Clear the mods directory and copy nothing.
    ClearOnly,
    /// The profile at this index of the catalog.
    Profile(usize),
    /// No profile has this number; ask again.
    OutOfRange(usize),
}

pub open spec fn quit_key() -> Seq<char> {
    seq!['q']
}

/// The selection that `key` makes on a menu of `count` profiles, numbered
/// from 1; `0` clears only.
pub open spec fn selection_spec(key: Seq<char>, count: nat) -> Selection {
    if key == quit_key() {
        Selection::Quit
    } else {
        match parse_spec(key) {
            None => Selection::NotANumber,
            Some(n) => if n == 0 {
                Selection::ClearOnly
            } else if n <= count {
                Selection::Profile((n - 1) as usize)
            } else {
                Selection::OutOfRange(n as usize)
            },
        }
    }
}

/// The selection that `key` makes on a menu of `count` profiles.
pub fn select_profile(key: &str, count: usize) -> (r: Selection)
    ensures
        r == selection_spec(key@, count as nat),
{
    if key.unicode_len() == 1 && key.get_char(0) == 'q' {
        assert(key@ =~= quit_key());
        return Selection::Quit;
    }
    assert(key@ != quit_key()) by {
        if key@ == quit_key() {
            assert(key@.len() == 1 && key@[0] == 'q');
        }
    }
    match parse_number(key) {
        None => Selection::NotANumber,
        Some(n) => if n == 0 {
            Selection::ClearOnly
        } else if n <= count {
            Selection::Profile(n - 1)
        } else {
            Selection::OutOfRange(n)
        },
    }
}

/// Whether the answer to "clear the mods directory first?" is yes.
pub fn confirms_clear(answer: &str) -> (r: bool)
    ensures
        r == (answer@ == seq!['y']),
{
    if answer.unicode_len() == 1 && answer.get_char(0) == 'y' {
        assert(answer@ =~= seq!['y']);
        true
    } else {
        assert(answer@ != seq!['y']) by {
            if answer@ == seq!['y'] {
                assert(answer@.len() == 1 && answer@[0] == 'y');
            }
        }
        false
    }
}

}
