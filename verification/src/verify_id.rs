//! The syntactic precheck a calendar id must pass before the provider is
//! asked about it: a local part and a domain part joined by one `@`, each
//! part one to four runs of ASCII word characters separated by single dots.
//!
//! The word-character class is deliberately restricted to ASCII letters,
//! digits and underscore: that keeps the grammar an exact few-line
//! specification, at the price of rejecting ids holding word characters
//! beyond ASCII, which a Unicode-aware word class would accept.
use vstd::prelude::*;
use vstd::string::StrSliceExecFns;

verus! {

/// An ASCII word character: a letter, a digit, or an underscore.
pub open spec fn is_word_char(c: char) -> bool {
    ||| 97 <= c as int <= 122
    ||| 65 <= c as int <= 90
    ||| 48 <= c as int <= 57
    ||| c == '_'
}

pub open spec fn spec_dot_count(s: Seq<char>, n: int) -> int
    decreases n,
{
    if n <= 0 {
        0
    } else {
        spec_dot_count(s, n - 1) + if s[n - 1] == '.' {
            1int
        } else {
            0int
        }
    }
}

/// One side of the id: up to four word-character runs joined by single
/// dots. Equivalently: nonempty, only word characters and dots, no dot at
/// either end, no two dots in a row, and at most three dots.
pub open spec fn spec_side_ok(s: Seq<char>) -> bool {
    &&& s.len() >= 1
    &&& forall|i: int| 0 <= i < s.len() ==> is_word_char(#[trigger] s[i]) || s[i] == '.'
    &&& s[0] != '.'
    &&& s[s.len() - 1] != '.'
    &&& forall|i: int| 0 <= i < s.len() - 1 ==> !(#[trigger] s[i] == '.' && s[i + 1] == '.')
    &&& spec_dot_count(s, s.len() as int) <= 3
}

/// The whole id: some `@` splits it into two well-formed sides. Since a side
/// never holds an `@`, at most one position can witness this.
pub open spec fn spec_calendar_id_well_formed(s: Seq<char>) -> bool {
    exists|k: int|
        0 <= k < s.len() && #[trigger] s[k] == '@' && spec_side_ok(s.subrange(0, k)) && spec_side_ok(
            s.subrange(k + 1, s.len() as int),
        )
}

/// Check one side, reading characters `from..to`.
fn check_side(s: &str, from: usize, to: usize) -> (r: bool)
    requires
        from <= to <= s@.len(),
    ensures
        r == spec_side_ok(s@.subrange(from as int, to as int)),
{
    let ghost side = s@.subrange(from as int, to as int);
    if to == from {
        return false;
    }
    let mut dots: usize = 0;
    let mut i: usize = from;
    while i < to
        invariant
            from <= i <= to <= s@.len(),
            to > from,
            side =~= s@.subrange(from as int, to as int),
            forall|j: int|
                0 <= j < i as int - from ==> is_word_char(#[trigger] side[j]) || side[j] == '.',
            forall|j: int|
                0 <= j < i as int - from - 1 ==> !(#[trigger] side[j] == '.' && side[j + 1] == '.'),
            i as int > from ==> side[0] != '.',
            dots as int == spec_dot_count(side, i as int - from),
            dots <= i - from,
        decreases to - i,
    {
        let c: char = s.get_char(i);
        proof {
            assert(side[i as int - from] == s@[i as int]);
        }
        let cv: u32 = c as u32;
        let word: bool = (97 <= cv && cv <= 122) || (65 <= cv && cv <= 90) || (48 <= cv && cv
            <= 57) || c == '_';
        if c == '.' {
            if i == from {
                return false;
            }
            if s.get_char(i - 1) == '.' {
                proof {
                    assert(side[i as int - from - 1] == s@[i as int - 1]);
                }
                return false;
            }
            dots = dots + 1;
        } else if !word {
            return false;
        }
        i = i + 1;
    }
    if s.get_char(to - 1) == '.' {
        proof {
            assert(side[to as int - from - 1] == s@[to as int - 1]);
        }
        return false;
    }
    proof {
        assert(side[to as int - from - 1] == s@[to as int - 1]);
    }
    dots <= 3
}

/// Whether a calendar id has the shape the provider could accept; checked
/// before the provider is asked, so that plainly malformed ids are rejected
/// without a network round trip.
pub fn calendar_id_well_formed(s: &str) -> (r: bool)
    ensures
        r == spec_calendar_id_well_formed(s@),
{
    let len: usize = s.unicode_len();
    let mut at: usize = 0;
    let mut found: bool = false;
    let mut i: usize = 0;
    while i < len
        invariant
            0 <= i <= len,
            len as int == s@.len(),
            !found ==> forall|j: int| 0 <= j < i as int ==> s@[j] != '@',
            found ==> (at as int) < i as int && s@[at as int] == '@' && (forall|j: int|
                0 <= j < at as int ==> s@[j] != '@'),
        decreases len - i,
    {
        if !found && s.get_char(i) == '@' {
            at = i;
            found = true;
        }
        i = i + 1;
    }
    if !found {
        proof {
            assert(forall|k: int| 0 <= k < s@.len() ==> s@[k] != '@');
        }
        return false;
    }
    let left_ok: bool = check_side(s, 0, at);
    let right_ok: bool = if at + 1 <= len {
        check_side(s, at + 1, len)
    } else {
        false
    };
    let r = left_ok && right_ok;
    proof {
        if r {
            assert(spec_calendar_id_well_formed(s@));
        } else {
            assert forall|k: int|
                !(0 <= k < s@.len() && #[trigger] s@[k] == '@' && spec_side_ok(
                    s@.subrange(0, k),
                ) && spec_side_ok(s@.subrange(k + 1, s@.len() as int))) by {
                if 0 <= k < s@.len() && s@[k] == '@' {
                    if k == at as int {
                    } else {
                        // Any later `@` leaves the first one inside the left
                        // side, where no `@` may stand.
                        assert(k > at as int);
                        let left = s@.subrange(0, k);
                        assert(left[at as int] == '@');
                        assert(!(is_word_char(left[at as int]) || left[at as int] == '.'));
                    }
                }
            }
        }
    }
    r
}

/// The verification worker's decision for one request: the id must be
/// well-formed, and the provider must have reported the calendar reachable.
pub fn calendar_id_valid(calendar_id: &str, accessible: bool) -> (r: bool)
    ensures
        r == (spec_calendar_id_well_formed(calendar_id@) && accessible),
{
    calendar_id_well_formed(calendar_id) && accessible
}

} // verus!
