//! Character-level helpers shared by the accumulator and the parser:
//! whitespace trimming and substring search.

use vstd::prelude::*;

verus! {

/// Code points with the Unicode `White_Space` property, the set that
/// `str::trim` strips from both ends of a string.
pub open spec fn is_space(c: char) -> bool {
    ||| ('\u{9}' <= c && c <= '\u{d}')
    ||| c == ' '
    ||| c == '\u{85}'
    ||| c == '\u{a0}'
    ||| c == '\u{1680}'
    ||| ('\u{2000}' <= c && c <= '\u{200a}')
    ||| c == '\u{2028}'
    ||| c == '\u{2029}'
    ||| c == '\u{202f}'
    ||| c == '\u{205f}'
    ||| c == '\u{3000}'
}

/// Runtime test for `is_space`.
pub fn space(c: char) -> (b: bool)
    ensures
        b == is_space(c),
{
    ('\u{9}' <= c && c <= '\u{d}')
        || c == ' '
        || c == '\u{85}'
        || c == '\u{a0}'
        || c == '\u{1680}'
        || ('\u{2000}' <= c && c <= '\u{200a}')
        || c == '\u{2028}'
        || c == '\u{2029}'
        || c == '\u{202f}'
        || c == '\u{205f}'
        || c == '\u{3000}'
}

/// What remains of `s` once every leading and trailing whitespace
/// character is removed.
pub open spec fn trim(s: Seq<char>) -> Seq<char>
    decreases s.len(),
{
    if s.len() == 0 {
        s
    } else if is_space(s[0]) {
        trim(s.drop_first())
    } else if is_space(s.last()) {
        trim(s.drop_last())
    } else {
        s
    }
}

/// `str::trim`, verified against `trim`.
pub fn trim_str<'a>(s: &'a str) -> (r: &'a str)
    ensures
        r@ == trim(s@),
{
    let len = s.unicode_len();
    let mut lo: usize = 0;
    let mut hi: usize = len;
    proof {
        assert(s@.subrange(0, len as int) =~= s@);
    }
    while lo < hi && space(s.get_char(lo))
        invariant
            lo <= hi <= len,
            trim(s@) == trim(s@.subrange(lo as int, hi as int)),
        decreases hi - lo,
    {
        proof {
            let sub = s@.subrange(lo as int, hi as int);
            assert(sub[0] == s@[lo as int]);
            assert(sub.drop_first() =~= s@.subrange(lo + 1, hi as int));
        }
        lo = lo + 1;
    }
    while lo < hi && space(s.get_char(hi - 1))
        invariant
            lo <= hi <= len,
            trim(s@) == trim(s@.subrange(lo as int, hi as int)),
            lo < hi ==> !is_space(s@[lo as int]),
        decreases hi,
    {
        proof {
            let sub = s@.subrange(lo as int, hi as int);
            assert(sub[0] == s@[lo as int]);
            assert(sub.last() == s@[hi - 1]);
            assert(sub.drop_last() =~= s@.subrange(lo as int, hi - 1));
        }
        hi = hi - 1;
    }
    proof {
        let sub = s@.subrange(lo as int, hi as int);
        if lo < hi {
            assert(sub[0] == s@[lo as int]);
            assert(sub.last() == s@[hi - 1]);
        } else {
            assert(sub =~= Seq::<char>::empty());
        }
    }
    s.substring_char(lo, hi)
}

/// The pattern `pat` occurs in `s` starting at index `i`.
pub open spec fn occurs_at(s: Seq<char>, pat: Seq<char>, i: int) -> bool {
    0 <= i && i + pat.len() <= s.len() && s.subrange(i, i + pat.len()) == pat
}

/// `s` holds `pat` somewhere as a contiguous substring.
pub open spec fn has_substring(s: Seq<char>, pat: Seq<char>) -> bool {
    exists|i: int| occurs_at(s, pat, i)
}

/// The least index at or after `i` where `pat` occurs in `s`, if any.
pub open spec fn first_occurrence_from(s: Seq<char>, pat: Seq<char>, i: int) -> Option<int>
    decreases s.len() - i + 1 when 0 <= i
{
    if i + pat.len() > s.len() {
        None
    } else if occurs_at(s, pat, i) {
        Some(i)
    } else {
        first_occurrence_from(s, pat, i + 1)
    }
}

/// What `first_occurrence_from` returns is the leftmost occurrence:
/// a found index is a match with none before it (at or after `i`),
/// and `None` means there is no match at or after `i` at all.
pub proof fn lemma_first_occurrence_from(s: Seq<char>, pat: Seq<char>, i: int)
    requires
        0 <= i,
    ensures
        match first_occurrence_from(s, pat, i) {
            Some(j) => occurs_at(s, pat, j) && i <= j && forall|k: int|
                i <= k < j ==> !occurs_at(s, pat, k),
            None => forall|k: int| i <= k ==> !occurs_at(s, pat, k),
        },
    decreases s.len() - i + 1,
{
    if i + pat.len() > s.len() {
        assert forall|k: int| i <= k implies !occurs_at(s, pat, k) by {
            assert(k + pat.len() > s.len());
        }
    } else if occurs_at(s, pat, i) {
    } else {
        lemma_first_occurrence_from(s, pat, i + 1);
    }
}

/// Whether `pat` occurs in `s` starting exactly at `i`, at runtime.
fn occurs_at_str(s: &str, pat: &str, i: usize, s_len: usize, pat_len: usize) -> (b: bool)
    requires
        s_len == s@.len(),
        pat_len == pat@.len(),
        i + pat_len <= s_len,
    ensures
        b == occurs_at(s@, pat@, i as int),
{
    let mut j: usize = 0;
    while j < pat_len
        invariant
            j <= pat_len,
            forall|m: int| 0 <= m < j ==> s@[i + m] == pat@[m],
        decreases pat_len - j,
    {
        if s.get_char(i + j) != pat.get_char(j) {
            proof {
                assert(s@.subrange(i as int, i + pat@.len())[j as int] == s@[i + j]);
            }
            return false;
        }
        j = j + 1;
    }
    proof {
        assert(s@.subrange(i as int, i + pat@.len()) =~= pat@);
    }
    true
}

/// `str::find` for a plain pattern, verified against `first_occurrence_from`.
pub fn find_sub(s: &str, pat: &str) -> (r: Option<usize>)
    ensures
        match r {
            Some(j) => first_occurrence_from(s@, pat@, 0) == Some(j as int),
            None => first_occurrence_from(s@, pat@, 0) is None,
        },
{
    let s_len = s.unicode_len();
    let pat_len = pat.unicode_len();
    if pat_len > s_len {
        return None;
    }
    if pat_len == 0 {
        proof {
            assert(s@.subrange(0, 0) =~= pat@);
        }
        return Some(0);
    }
    let end = s_len - pat_len;
    let mut i: usize = 0;
    while i <= end
        invariant
            i <= end + 1,
            first_occurrence_from(s@, pat@, 0) == first_occurrence_from(s@, pat@, i as int),
        decreases end + 1 - i,
    {
        if occurs_at_str(s, pat, i, s_len, pat_len) {
            return Some(i);
        }
        i = i + 1;
    }
    None
}

/// `str::contains` for a plain pattern, verified against `has_substring`.
pub fn has_sub(s: &str, pat: &str) -> (b: bool)
    ensures
        b == has_substring(s@, pat@),
{
    proof {
        lemma_first_occurrence_from(s@, pat@, 0);
    }
    match find_sub(s, pat) {
        Some(_) => true,
        None => {
            proof {
                assert forall|k: int| !occurs_at(s@, pat@, k) by {
                    if 0 <= k {
                    }
                }
            }
            false
        },
    }
}

} // verus!
