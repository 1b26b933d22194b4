//! Properties of the pipeline that hold for every input, proved once
//! and for all: what a record lacks when its line lacks the optional
//! tokens, what a second date token becomes, what noise lines and empty
//! input do to the accumulator, and the canonical shape of every
//! emitted record.

use vstd::prelude::*;

use crate::accumulate::accumulate_spec;
use crate::accumulate::is_noise;
use crate::accumulate::lemma_accumulated_have_date;
use crate::accumulate::logical_lines;
use crate::is_digit;
use crate::parse::normalize_date;
use crate::parse::parse_spec;
use crate::parse::records_spec;
use crate::pattern::date_at;
use crate::pattern::date_positions;
use crate::pattern::first_time;
use crate::pattern::has_date;
use crate::pattern::lemma_date_positions_from;
use crate::pattern::lemma_first_time_from;
use crate::pattern::lemma_has_date_iff_positions;
use crate::pattern::time_len_at;
use crate::text::trim;

verus! {

/// A logical line with exactly one date token and no time token parses
/// to a record whose `end` and `has_hours` are both absent.
pub proof fn lemma_single_date_no_extras(l: Seq<char>)
    requires
        date_positions(l).len() == 1,
        first_time(l) is None,
    ensures
        parse_spec(l).end is None,
        parse_spec(l).has_hours is None,
{
}

/// A logical line with (at least) two date tokens parses to a record
/// whose `end` is present and is the second token reversed into
/// `YYYY-MM-DD` form.
pub proof fn lemma_second_date_is_end(l: Seq<char>)
    requires
        date_positions(l).len() >= 2,
    ensures
        parse_spec(l).end == Some(
            normalize_date(l.subrange(date_positions(l)[1], date_positions(l)[1] + 10)),
        ),
{
}

/// A noise line contributes nothing: put in front of any remaining
/// input, with any line under construction, it neither feeds the
/// logical line nor resets it.
pub proof fn lemma_noise_line_dropped(line: Seq<char>, rest: Seq<Seq<char>>, acc: Seq<char>)
    requires
        is_noise(trim(line)),
    ensures
        accumulate_spec(seq![line] + rest, acc) == accumulate_spec(rest, acc),
{
    let all = seq![line] + rest;
    assert(all[0] == line);
    assert(all.drop_first() =~= rest);
}

/// An already-consumed stream: with no physical lines left, the
/// accumulator yields nothing, whatever fragment it still holds.
pub proof fn lemma_empty_input(acc: Seq<char>)
    ensures
        accumulate_spec(Seq::empty(), acc) == Seq::<Seq<char>>::empty(),
{
}

/// The canonical date shape `YYYY-MM-DD`.
pub open spec fn canonical_date(s: Seq<char>) -> bool {
    &&& s.len() == 10
    &&& is_digit(s[0])
    &&& is_digit(s[1])
    &&& is_digit(s[2])
    &&& is_digit(s[3])
    &&& s[4] == '-'
    &&& is_digit(s[5])
    &&& is_digit(s[6])
    &&& s[7] == '-'
    &&& is_digit(s[8])
    &&& is_digit(s[9])
}

/// The canonical clock shape: `H:MM` or `HH:MM`, the hour not padded.
pub open spec fn canonical_clock(s: Seq<char>) -> bool {
    ||| (s.len() == 4 && is_digit(s[0]) && s[1] == ':' && is_digit(s[2]) && is_digit(s[3]))
    ||| (s.len() == 5 && is_digit(s[0]) && is_digit(s[1]) && s[2] == ':' && is_digit(s[3])
        && is_digit(s[4]))
}

/// The canonical shape of a `begin` field: a date, optionally followed
/// by `T` and a clock.
pub open spec fn canonical_begin(s: Seq<char>) -> bool {
    ||| canonical_date(s)
    ||| (s.len() >= 11 && canonical_date(s.take(10)) && s[10] == 'T' && canonical_clock(
        s.skip(11),
    ))
}

/// A date token reversed into `YYYY-MM-DD` has the canonical date shape.
proof fn lemma_normalize_canonical(l: Seq<char>, p: int)
    requires
        date_at(l, p),
    ensures
        canonical_date(normalize_date(l.subrange(p, p + 10))),
{
    let t = l.subrange(p, p + 10);
    let r = normalize_date(t);
    assert(r.len() == 10);
    assert(r[0] == l[p + 6] && r[1] == l[p + 7] && r[2] == l[p + 8] && r[3] == l[p + 9]);
    assert(r[4] == '-');
    assert(r[5] == l[p + 3] && r[6] == l[p + 4]);
    assert(r[7] == '-');
    assert(r[8] == l[p] && r[9] == l[p + 1]);
}

/// Every record of a line with a date token is well formed: `begin` is
/// non-empty and canonical, `end`, when present, is a canonical date,
/// and `has_hours` is present (then always `true`) exactly when the
/// line holds a time token.
pub proof fn lemma_record_canonical(l: Seq<char>)
    requires
        has_date(l),
    ensures
        parse_spec(l).begin.len() > 0,
        canonical_begin(parse_spec(l).begin),
        parse_spec(l).end matches Some(e) ==> canonical_date(e),
        parse_spec(l).has_hours == if first_time(l) is Some {
            Some(true)
        } else {
            None::<bool>
        },
{
    lemma_has_date_iff_positions(l);
    lemma_date_positions_from(l, 0);
    let ps = date_positions(l);
    assert(date_at(l, ps[0]));
    lemma_normalize_canonical(l, ps[0]);
    let d = normalize_date(l.subrange(ps[0], ps[0] + 10));
    let b = parse_spec(l).begin;
    match first_time(l) {
        None => {
            assert(b =~= d);
        },
        Some(p) => {
            lemma_first_time_from(l, 0);
            let clock = l.subrange(p.0, p.0 + p.1);
            assert(b.take(10) =~= d);
            assert(b[10] == 'T');
            let tail = b.skip(11);
            assert(time_len_at(l, p.0) == Some(p.1));
            if p.1 == 1 {
                assert(tail =~= clock + seq![':', '0', '0']);
                assert(is_digit(tail[0]) && tail[1] == ':' && tail[2] == '0' && tail[3] == '0');
            } else if p.1 == 2 {
                assert(tail =~= clock + seq![':', '0', '0']);
                assert(is_digit(tail[0]) && is_digit(tail[1]) && tail[2] == ':' && tail[3] == '0'
                    && tail[4] == '0');
            } else if p.1 == 4 {
                assert(tail =~= clock);
                assert(is_digit(tail[0]) && tail[1] == ':' && is_digit(tail[2]) && is_digit(
                    tail[3],
                ));
            } else {
                assert(tail =~= clock);
                assert(is_digit(tail[0]) && is_digit(tail[1]) && tail[2] == ':' && is_digit(
                    tail[3],
                ) && is_digit(tail[4]));
            }
            assert(canonical_clock(tail));
        },
    }
    if ps.len() >= 2 {
        assert(date_at(l, ps[1]));
        lemma_normalize_canonical(l, ps[1]);
    }
}

/// Every record the whole pipeline emits, for any document, is well
/// formed in the sense of `lemma_record_canonical`: the accumulator only
/// yields lines with a date token, and such a line always parses to a
/// canonical record.
pub proof fn lemma_all_records_canonical(lines: Seq<Seq<char>>)
    ensures
        forall|k: int|
            0 <= k < records_spec(lines).len() ==> {
                let rec = #[trigger] records_spec(lines)[k];
                &&& rec.begin.len() > 0
                &&& canonical_begin(rec.begin)
                &&& (rec.end matches Some(e) ==> canonical_date(e))
                &&& (rec.has_hours matches Some(b) ==> b == true)
            },
{
    lemma_accumulated_have_date(lines, Seq::empty());
    assert forall|k: int| 0 <= k < records_spec(lines).len() implies {
        let rec = #[trigger] records_spec(lines)[k];
        &&& rec.begin.len() > 0
        &&& canonical_begin(rec.begin)
        &&& (rec.end matches Some(e) ==> canonical_date(e))
        &&& (rec.has_hours matches Some(b) ==> b == true)
    } by {
        let l = logical_lines(lines)[k];
        assert(records_spec(lines)[k] == parse_spec(l));
        assert(has_date(l));
        lemma_record_canonical(l);
    }
}

} // verus!
