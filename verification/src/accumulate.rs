//! The line accumulator: merges wrapped physical lines into logical
//! entry lines.
//!
//! Each physical line is trimmed; empty lines and boilerplate lines are
//! dropped without touching the line under construction; every other
//! line is appended, followed by a single space. The moment the physical
//! line just appended holds a date token, the logical line is complete:
//! it is emitted and the accumulator starts over empty. A trailing
//! fragment never terminated by a date token is dropped.

use vstd::prelude::*;

use crate::pattern::date_at;
use crate::pattern::has_date;
use crate::pattern::has_date_str;
use crate::text::has_sub;
use crate::text::has_substring;
use crate::text::trim;
use crate::text::trim_str;

verus! {

/// Boilerplate marker: the document title.
pub open spec fn noise_title() -> Seq<char> {
    "Semestertermine für Ihr Studium"@
}

/// Boilerplate marker: a winter-semester label.
pub open spec fn noise_winter() -> Seq<char> {
    "Wintersemester"@
}

/// Boilerplate marker: a summer-semester label.
pub open spec fn noise_summer() -> Seq<char> {
    "Sommersemester"@
}

/// Boilerplate marker: an enrolment header.
pub open spec fn noise_enrolment() -> Seq<char> {
    "Einschreibung für"@
}

/// A trimmed physical line that contributes nothing: empty, or holding
/// one of the fixed boilerplate markers.
pub open spec fn is_noise(t: Seq<char>) -> bool {
    ||| t.len() == 0
    ||| has_substring(t, noise_title())
    ||| has_substring(t, noise_winter())
    ||| has_substring(t, noise_summer())
    ||| has_substring(t, noise_enrolment())
}

/// Runtime test for `is_noise` on a trimmed line.
pub fn is_noise_str(t: &str) -> (b: bool)
    ensures
        b == is_noise(t@),
{
    t.unicode_len() == 0 || has_sub(t, "Semestertermine für Ihr Studium") || has_sub(
        t,
        "Wintersemester",
    ) || has_sub(t, "Sommersemester") || has_sub(t, "Einschreibung für")
}

/// The logical entry lines that the remaining physical `lines` yield when
/// the line under construction currently holds `acc`.
pub open spec fn accumulate_spec(lines: Seq<Seq<char>>, acc: Seq<char>) -> Seq<Seq<char>>
    decreases lines.len(),
{
    if lines.len() == 0 {
        Seq::empty()
    } else {
        let t = trim(lines[0]);
        if is_noise(t) {
            accumulate_spec(lines.drop_first(), acc)
        } else {
            let grown = acc + t + seq![' '];
            if has_date(t) {
                seq![grown] + accumulate_spec(lines.drop_first(), Seq::empty())
            } else {
                accumulate_spec(lines.drop_first(), grown)
            }
        }
    }
}

/// The logical entry lines of a whole document, started with an empty
/// accumulator.
pub open spec fn logical_lines(lines: Seq<Seq<char>>) -> Seq<Seq<char>> {
    accumulate_spec(lines, Seq::empty())
}

/// Every logical line the accumulator yields holds a date token: the
/// guarantee the entry parser relies on.
pub proof fn lemma_accumulated_have_date(lines: Seq<Seq<char>>, acc: Seq<char>)
    ensures
        forall|k: int|
            0 <= k < accumulate_spec(lines, acc).len() ==> has_date(
                #[trigger] accumulate_spec(lines, acc)[k],
            ),
    decreases lines.len(),
{
    if lines.len() == 0 {
    } else {
        let t = trim(lines[0]);
        if is_noise(t) {
            lemma_accumulated_have_date(lines.drop_first(), acc);
            assert forall|k: int| 0 <= k < accumulate_spec(lines, acc).len() implies has_date(
                #[trigger] accumulate_spec(lines, acc)[k],
            ) by {
                assert(accumulate_spec(lines, acc)[k] == accumulate_spec(
                    lines.drop_first(),
                    acc,
                )[k]);
            }
        } else {
            let grown = acc + t + seq![' '];
            if has_date(t) {
                lemma_accumulated_have_date(lines.drop_first(), Seq::empty());
                let j = choose|j: int| date_at(t, j);
                assert(date_at(grown, acc.len() + j)) by {
                    assert forall|m: int| 0 <= m < 10 implies #[trigger] grown[acc.len() + j + m]
                        == t[j + m] by {
                        assert((acc + t)[acc.len() + j + m] == t[j + m]);
                    }
                }
                assert forall|k: int| 0 <= k < accumulate_spec(lines, acc).len() implies has_date(
                    #[trigger] accumulate_spec(lines, acc)[k],
                ) by {
                    if k > 0 {
                        assert(accumulate_spec(lines, acc)[k] == accumulate_spec(
                            lines.drop_first(),
                            Seq::empty(),
                        )[k - 1]);
                    }
                }
            } else {
                lemma_accumulated_have_date(lines.drop_first(), grown);
                assert forall|k: int| 0 <= k < accumulate_spec(lines, acc).len() implies has_date(
                    #[trigger] accumulate_spec(lines, acc)[k],
                ) by {
                    assert(accumulate_spec(lines, acc)[k] == accumulate_spec(
                        lines.drop_first(),
                        grown,
                    )[k]);
                }
            }
        }
    }
}

/// The line accumulator: turns the physical lines of a document into its
/// logical entry lines, each of which holds a date token.
pub fn accumulate(lines: &Vec<String>) -> (r: Vec<String>)
    ensures
        r.deep_view() == logical_lines(lines.deep_view()),
        forall|k: int| 0 <= k < r.deep_view().len() ==> has_date(#[trigger] r.deep_view()[k]),
{
    let ghost all = lines.deep_view();
    let mut out: Vec<String> = Vec::new();
    let mut acc: String = String::new();
    let mut k: usize = 0;
    proof {
        assert(all.skip(0) =~= all);
        assert(out.deep_view() + accumulate_spec(all, Seq::empty()) =~= logical_lines(all));
    }
    while k < lines.len()
        invariant
            k <= lines.len(),
            all == lines.deep_view(),
            logical_lines(all) == out.deep_view() + accumulate_spec(all.skip(k as int), acc@),
        decreases lines.len() - k,
    {
        proof {
            assert(all.skip(k as int)[0] == all[k as int]);
            assert(all.skip(k as int).drop_first() =~= all.skip(k as int + 1));
        }
        let t = trim_str(lines[k].as_str());
        if !is_noise_str(t) {
            let ghost before = acc@;
            acc.append(t);
            acc.append(" ");
            proof {
                reveal_strlit(" ");
                assert(acc@ =~= before + t@ + seq![' ']);
            }
            if has_date_str(t) {
                let ghost out_before = out.deep_view();
                let ghost grown = acc@;
                out.push(acc);
                acc = String::new();
                proof {
                    assert(out.deep_view() =~= out_before + seq![grown]);
                    assert(out_before + (seq![grown] + accumulate_spec(
                        all.skip(k as int + 1),
                        Seq::empty(),
                    )) =~= out.deep_view() + accumulate_spec(all.skip(k as int + 1), acc@));
                }
            }
        }
        k = k + 1;
    }
    proof {
        assert(all.skip(k as int) =~= Seq::<Seq<char>>::empty());
        assert(out.deep_view() + accumulate_spec(Seq::empty(), acc@) =~= out.deep_view());
        lemma_accumulated_have_date(all, Seq::empty());
    }
    out
}

} // verus!
