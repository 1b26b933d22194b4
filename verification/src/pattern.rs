//! The two token grammars of the calendar text: a date token
//! `DD.MM.YYYY` and a time-of-day token `H[:MM] Uhr` / `HH[:MM] Uhr`.
//!
//! Both are searched for the way a leftmost-greedy scan would find them:
//! start positions are tried left to right, and at one start position the
//! longer clock text is preferred over the shorter.

use vstd::prelude::*;

use crate::is_digit;
use crate::digit;

verus! {

/// A date token `DD.MM.YYYY` starts in `s` at index `i`.
pub open spec fn date_at(s: Seq<char>, i: int) -> bool {
    &&& 0 <= i
    &&& i + 10 <= s.len()
    &&& is_digit(s[i])
    &&& is_digit(s[i + 1])
    &&& s[i + 2] == '.'
    &&& is_digit(s[i + 3])
    &&& is_digit(s[i + 4])
    &&& s[i + 5] == '.'
    &&& is_digit(s[i + 6])
    &&& is_digit(s[i + 7])
    &&& is_digit(s[i + 8])
    &&& is_digit(s[i + 9])
}

/// `s` holds a date token somewhere.
pub open spec fn has_date(s: Seq<char>) -> bool {
    exists|i: int| date_at(s, i)
}

/// Start indices of the date tokens of `s` from index `i` on, left to
/// right, each next search resuming right after the token just found.
pub open spec fn date_positions_from(s: Seq<char>, i: int) -> Seq<int>
    decreases s.len() + 10 - i when 0 <= i
{
    if i + 10 > s.len() {
        Seq::empty()
    } else if date_at(s, i) {
        seq![i] + date_positions_from(s, i + 10)
    } else {
        date_positions_from(s, i + 1)
    }
}

/// Start indices of all date tokens of `s`, left to right.
pub open spec fn date_positions(s: Seq<char>) -> Seq<int> {
    date_positions_from(s, 0)
}

/// Every listed position is a date token at or after the search start,
/// and the list is empty exactly when no token starts at or after it.
pub proof fn lemma_date_positions_from(s: Seq<char>, i: int)
    requires
        0 <= i,
    ensures
        forall|k: int| 0 <= k < date_positions_from(s, i).len() ==> {
            let p = #[trigger] date_positions_from(s, i)[k];
            date_at(s, p) && i <= p
        },
        date_positions_from(s, i).len() == 0 <==> (forall|j: int|
            i <= j ==> !date_at(s, j)),
    decreases s.len() + 10 - i,
{
    if i + 10 > s.len() {
        assert forall|j: int| i <= j implies !date_at(s, j) by {
            assert(j + 10 > s.len());
        }
    } else if date_at(s, i) {
        lemma_date_positions_from(s, i + 10);
        assert(date_positions_from(s, i)[0] == i);
        assert forall|k: int| 0 <= k < date_positions_from(s, i).len() implies {
            let p = #[trigger] date_positions_from(s, i)[k];
            date_at(s, p) && i <= p
        } by {
            if k > 0 {
                assert(date_positions_from(s, i)[k] == date_positions_from(s, i + 10)[k - 1]);
            }
        }
    } else {
        lemma_date_positions_from(s, i + 1);
    }
}

/// All date tokens of `s` are listed: `has_date` holds exactly when the
/// position list is non-empty.
pub proof fn lemma_has_date_iff_positions(s: Seq<char>)
    ensures
        has_date(s) <==> date_positions(s).len() > 0,
{
    lemma_date_positions_from(s, 0);
    if has_date(s) {
        let j = choose|j: int| date_at(s, j);
        assert(0 <= j);
    }
}

/// Whether a date token starts at `i`, at runtime.
fn date_at_str(s: &str, i: usize, s_len: usize) -> (b: bool)
    requires
        s_len == s@.len(),
        i + 10 <= s_len,
    ensures
        b == date_at(s@, i as int),
{
    digit(s.get_char(i)) && digit(s.get_char(i + 1)) && s.get_char(i + 2) == '.' && digit(
        s.get_char(i + 3),
    ) && digit(s.get_char(i + 4)) && s.get_char(i + 5) == '.' && digit(s.get_char(i + 6)) && digit(
        s.get_char(i + 7),
    ) && digit(s.get_char(i + 8)) && digit(s.get_char(i + 9))
}

/// Whether `s` holds a date token at all, at runtime; the test the
/// accumulator applies to each physical line.
pub fn has_date_str(s: &str) -> (b: bool)
    ensures
        b == has_date(s@),
{
    let s_len = s.unicode_len();
    if s_len < 10 {
        proof {
            assert forall|j: int| !date_at(s@, j) by {
                assert(date_at(s@, j) ==> j + 10 <= s@.len());
            }
        }
        return false;
    }
    let end = s_len - 10;
    let mut i: usize = 0;
    while i <= end
        invariant
            i <= end + 1,
            forall|j: int| 0 <= j < i ==> !date_at(s@, j),
        decreases end + 1 - i,
    {
        if date_at_str(s, i, s_len) {
            return true;
        }
        i = i + 1;
    }
    proof {
        assert forall|j: int| !date_at(s@, j) by {
            if date_at(s@, j) {
                assert(j + 10 <= s@.len());
                assert(j < i);
            }
        }
    }
    false
}

/// Start indices of all date tokens of `s`, at runtime.
pub fn date_positions_str(s: &str) -> (r: Vec<usize>)
    ensures
        r@.map_values(|u: usize| u as int) == date_positions(s@),
{
    let s_len = s.unicode_len();
    let mut r: Vec<usize> = Vec::new();
    proof {
        assert(r@.map_values(|u: usize| u as int) =~= Seq::<int>::empty());
    }
    if s_len < 10 {
        proof {
            assert(date_positions(s@) =~= Seq::<int>::empty());
        }
        return r;
    }
    let end = s_len - 10;
    let mut i: usize = 0;
    while i <= end
        invariant
            i <= end + 10,
            r@.map_values(|u: usize| u as int) + date_positions_from(s@, i as int)
                == date_positions(s@),
        decreases end + 10 - i,
    {
        let ghost prev = r@;
        if date_at_str(s, i, s_len) {
            r.push(i);
            proof {
                assert(r@.map_values(|u: usize| u as int) =~= prev.map_values(|u: usize| u as int)
                    + seq![i as int]);
                assert(seq![i as int] + date_positions_from(s@, i + 10)
                    == date_positions_from(s@, i as int));
            }
            i = i + 10;
        } else {
            i = i + 1;
        }
    }
    proof {
        assert(i + 10 > s@.len());
        assert(date_positions_from(s@, i as int) =~= Seq::<int>::empty());
        assert(r@.map_values(|u: usize| u as int) + Seq::<int>::empty() =~= r@.map_values(
            |u: usize| u as int,
        ));
    }
    r
}

/// The unit text ` Uhr` follows at index `i`.
pub open spec fn hour_unit_at(s: Seq<char>, i: int) -> bool {
    &&& 0 <= i
    &&& i + 4 <= s.len()
    &&& s[i] == ' '
    &&& s[i + 1] == 'U'
    &&& s[i + 2] == 'h'
    &&& s[i + 3] == 'r'
}

/// A time token `HH:MM Uhr` starts at `i`; the clock text is 5 characters.
pub open spec fn time5_at(s: Seq<char>, i: int) -> bool {
    &&& 0 <= i
    &&& i + 9 <= s.len()
    &&& is_digit(s[i])
    &&& is_digit(s[i + 1])
    &&& s[i + 2] == ':'
    &&& is_digit(s[i + 3])
    &&& is_digit(s[i + 4])
    &&& hour_unit_at(s, i + 5)
}

/// A time token `HH Uhr` starts at `i`; the clock text is 2 characters.
pub open spec fn time2_at(s: Seq<char>, i: int) -> bool {
    &&& 0 <= i
    &&& i + 6 <= s.len()
    &&& is_digit(s[i])
    &&& is_digit(s[i + 1])
    &&& hour_unit_at(s, i + 2)
}

/// A time token `H:MM Uhr` starts at `i`; the clock text is 4 characters.
pub open spec fn time4_at(s: Seq<char>, i: int) -> bool {
    &&& 0 <= i
    &&& i + 8 <= s.len()
    &&& is_digit(s[i])
    &&& s[i + 1] == ':'
    &&& is_digit(s[i + 2])
    &&& is_digit(s[i + 3])
    &&& hour_unit_at(s, i + 4)
}

/// A time token `H Uhr` starts at `i`; the clock text is 1 character.
pub open spec fn time1_at(s: Seq<char>, i: int) -> bool {
    &&& 0 <= i
    &&& i + 5 <= s.len()
    &&& is_digit(s[i])
    &&& hour_unit_at(s, i + 1)
}

/// Length of the clock text of a time token starting at `i`, if one does:
/// the alternatives in the order a greedy match tries them, two hour
/// digits before one, minutes present before absent.
pub open spec fn time_len_at(s: Seq<char>, i: int) -> Option<int> {
    if time5_at(s, i) {
        Some(5)
    } else if time2_at(s, i) {
        Some(2)
    } else if time4_at(s, i) {
        Some(4)
    } else if time1_at(s, i) {
        Some(1)
    } else {
        None
    }
}

/// Start index and clock-text length of the first time token of `s` at or
/// after index `i`, if any.
pub open spec fn first_time_from(s: Seq<char>, i: int) -> Option<(int, int)>
    decreases s.len() + 1 - i when 0 <= i
{
    if i >= s.len() {
        None
    } else if time_len_at(s, i) is Some {
        Some((i, time_len_at(s, i)->0))
    } else {
        first_time_from(s, i + 1)
    }
}

/// Start index and clock-text length of the first time token of `s`.
pub open spec fn first_time(s: Seq<char>) -> Option<(int, int)> {
    first_time_from(s, 0)
}

/// A found time token lies in bounds, with a clock text of one of the
/// four lengths, a colon inside exactly the longer two.
pub proof fn lemma_first_time_from(s: Seq<char>, i: int)
    requires
        0 <= i,
    ensures
        match first_time_from(s, i) {
            Some(p) => {
                &&& i <= p.0
                &&& time_len_at(s, p.0) == Some(p.1)
                &&& p.0 + p.1 <= s.len()
                &&& (p.1 == 1 || p.1 == 2 || p.1 == 4 || p.1 == 5)
            },
            None => true,
        },
    decreases s.len() + 1 - i,
{
    if i >= s.len() {
    } else if time_len_at(s, i) is Some {
    } else {
        lemma_first_time_from(s, i + 1);
    }
}

/// Length of the clock text of a time token starting at `i`, at runtime.
fn time_len_at_str(s: &str, i: usize, s_len: usize) -> (r: Option<usize>)
    requires
        s_len == s@.len(),
        i < s_len,
    ensures
        match r {
            Some(n) => time_len_at(s@, i as int) == Some(n as int),
            None => time_len_at(s@, i as int) is None,
        },
{
    if s_len - i >= 9 && digit(s.get_char(i)) && digit(s.get_char(i + 1)) && s.get_char(i + 2)
        == ':' && digit(s.get_char(i + 3)) && digit(s.get_char(i + 4)) && hour_unit_at_str(
        s,
        i + 5,
        s_len,
    ) {
        Some(5)
    } else if s_len - i >= 6 && digit(s.get_char(i)) && digit(s.get_char(i + 1)) && hour_unit_at_str(
        s,
        i + 2,
        s_len,
    ) {
        Some(2)
    } else if s_len - i >= 8 && digit(s.get_char(i)) && s.get_char(i + 1) == ':' && digit(
        s.get_char(i + 2),
    ) && digit(s.get_char(i + 3)) && hour_unit_at_str(s, i + 4, s_len) {
        Some(4)
    } else if s_len - i >= 5 && digit(s.get_char(i)) && hour_unit_at_str(s, i + 1, s_len) {
        Some(1)
    } else {
        None
    }
}

/// Whether the unit text ` Uhr` follows at `i`, at runtime.
fn hour_unit_at_str(s: &str, i: usize, s_len: usize) -> (b: bool)
    requires
        s_len == s@.len(),
        i + 4 <= s_len,
    ensures
        b == hour_unit_at(s@, i as int),
{
    s.get_char(i) == ' ' && s.get_char(i + 1) == 'U' && s.get_char(i + 2) == 'h' && s.get_char(
        i + 3,
    ) == 'r'
}

/// Start index and clock-text length of the first time token, at runtime.
pub fn first_time_str(s: &str) -> (r: Option<(usize, usize)>)
    ensures
        match r {
            Some(p) => first_time(s@) == Some((p.0 as int, p.1 as int)),
            None => first_time(s@) is None,
        },
{
    let s_len = s.unicode_len();
    let mut i: usize = 0;
    while i < s_len
        invariant
            i <= s_len,
            first_time(s@) == first_time_from(s@, i as int),
        decreases s_len - i,
    {
        match time_len_at_str(s, i, s_len) {
            Some(n) => {
                return Some((i, n));
            },
            None => {
                i = i + 1;
            },
        }
    }
    None
}

} // verus!
