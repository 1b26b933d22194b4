//! The entry parser: turns one logical entry line into a canonical
//! record.
//!
//! The text before the first date token, trimmed and with a trailing
//! deadline qualifier (`spätestens bis ...`) cut off, is the record's
//! name. The first date token, reversed from `DD.MM.YYYY` into
//! `YYYY-MM-DD`, is `begin`; a second token, reversed the same way, is
//! `end`. If a time token occurs anywhere in the line, its clock text is
//! appended to `begin` as `T<clock>`, with `:00` added when the token
//! carried no minutes, and `has_hours` becomes present and true.

use vstd::prelude::*;

use crate::accumulate::accumulate;
use crate::accumulate::logical_lines;
use crate::pattern::date_at;
use crate::pattern::date_positions;
use crate::pattern::date_positions_str;
use crate::pattern::first_time;
use crate::pattern::first_time_str;
use crate::pattern::has_date;
use crate::pattern::lemma_date_positions_from;
use crate::pattern::lemma_first_time_from;
use crate::pattern::lemma_has_date_iff_positions;
use crate::text::find_sub;
use crate::text::first_occurrence_from;
use crate::text::lemma_first_occurrence_from;
use crate::text::trim;
use crate::text::trim_str;

verus! {

/// One extracted calendar event, ready for serialization.
///
/// `end` is present only when the logical line held a second date token;
/// `has_hours` is present (and then always `true`) only when the line
/// held a time token.
#[derive(Debug)]
pub struct Record {
    pub name: String,
    pub begin: String,
    pub end: Option<String>,
    pub has_hours: Option<bool>,
}

/// The mathematical shape of a `Record`: its strings as character
/// sequences.
pub ghost struct RecordModel {
    pub name: Seq<char>,
    pub begin: Seq<char>,
    pub end: Option<Seq<char>>,
    pub has_hours: Option<bool>,
}

impl View for Record {
    type V = RecordModel;

    open spec fn view(&self) -> RecordModel {
        RecordModel {
            name: self.name@,
            begin: self.begin@,
            end: match self.end {
                Some(e) => Some(e@),
                None => None,
            },
            has_hours: self.has_hours,
        }
    }
}

/// The failure of `parse`: the line holds no date token at all.
#[derive(Debug)]
pub enum ParseError {
    MalformedEntry,
}

/// The fixed phrase meaning "at the latest by"; what follows it in a
/// name region is dropped.
pub open spec fn qualifier_marker() -> Seq<char> {
    "spätestens bis"@
}

/// A date token `DD.MM.YYYY`, reversed around its dots into
/// `YYYY-MM-DD`.
pub open spec fn normalize_date(t: Seq<char>) -> Seq<char>
    recommends
        t.len() == 10,
{
    t.subrange(6, 10) + seq!['-'] + t.subrange(3, 5) + seq!['-'] + t.subrange(0, 2)
}

/// A trimmed name region with any deadline qualifier cut off: only the
/// part before the first occurrence of the marker remains, trimmed
/// again.
pub open spec fn strip_qualifier(t: Seq<char>) -> Seq<char> {
    match first_occurrence_from(t, qualifier_marker(), 0) {
        Some(j) => trim(t.subrange(0, j)),
        None => t,
    }
}

/// The name of a logical line: the text before its first date token,
/// trimmed, with any deadline qualifier cut off.
pub open spec fn parsed_name(l: Seq<char>) -> Seq<char>
    recommends
        has_date(l),
{
    strip_qualifier(trim(l.subrange(0, date_positions(l)[0])))
}

/// The `T<clock>` suffix that a time token adds to `begin`: empty when
/// the line holds none, and `:00` is added when the clock text carried
/// no minutes.
pub open spec fn time_suffix(l: Seq<char>) -> Seq<char> {
    match first_time(l) {
        None => Seq::empty(),
        Some(p) => seq!['T'] + l.subrange(p.0, p.0 + p.1) + if p.1 <= 2 {
            seq![':', '0', '0']
        } else {
            Seq::empty()
        },
    }
}

/// The record a logical line parses to.
pub open spec fn parse_spec(l: Seq<char>) -> RecordModel
    recommends
        has_date(l),
{
    let ps = date_positions(l);
    RecordModel {
        name: parsed_name(l),
        begin: normalize_date(l.subrange(ps[0], ps[0] + 10)) + time_suffix(l),
        end: if ps.len() >= 2 {
            Some(normalize_date(l.subrange(ps[1], ps[1] + 10)))
        } else {
            None
        },
        has_hours: if first_time(l) is Some {
            Some(true)
        } else {
            None
        },
    }
}

/// `DD.MM.YYYY` at index `p` of `line`, reversed into `YYYY-MM-DD`, at
/// runtime.
fn normalize_date_str(line: &str, p: usize) -> (r: String)
    requires
        p + 10 <= line@.len(),
    ensures
        r@ == normalize_date(line@.subrange(p as int, p + 10)),
{
    let n = line.unicode_len();
    proof {
        assert(p + 10 <= n);
    }
    let mut r = line.substring_char(p + 6, p + 10).to_owned();
    r.append("-");
    r.append(line.substring_char(p + 3, p + 5));
    r.append("-");
    r.append(line.substring_char(p, p + 2));
    proof {
        reveal_strlit("-");
        assert(r@ =~= normalize_date(line@.subrange(p as int, p + 10)));
    }
    r
}

/// The entry parser: one logical line in, one canonical record out.
/// Fails exactly on a line without a date token.
pub fn parse(line: &str) -> (r: Result<Record, ParseError>)
    ensures
        r is Ok <==> has_date(line@),
        r matches Ok(rec) ==> rec@ == parse_spec(line@),
        r matches Err(e) ==> e == ParseError::MalformedEntry,
{
    proof {
        lemma_date_positions_from(line@, 0);
        lemma_has_date_iff_positions(line@);
    }
    let ps = date_positions_str(line);
    if ps.len() == 0 {
        proof {
            assert(date_positions(line@).len() == 0);
        }
        return Err(ParseError::MalformedEntry);
    }
    let p0 = ps[0];
    proof {
        assert(ps@.map_values(|u: usize| u as int)[0] == p0 as int);
        assert(date_positions(line@)[0] == p0 as int);
        assert(date_at(line@, p0 as int));
    }

    let prefix = line.substring_char(0, p0);
    let trimmed = trim_str(prefix);
    proof {
        lemma_first_occurrence_from(trimmed@, qualifier_marker(), 0);
    }
    let name_str = match find_sub(trimmed, "spätestens bis") {
        Some(j) => trim_str(trimmed.substring_char(0, j)),
        None => trimmed,
    };
    let name = name_str.to_owned();
    proof {
        assert(name@ == parsed_name(line@));
    }

    let mut begin = normalize_date_str(line, p0);

    let end: Option<String> = if ps.len() >= 2 {
        let p1 = ps[1];
        proof {
            assert(ps@.map_values(|u: usize| u as int)[1] == p1 as int);
            assert(date_positions(line@)[1] == p1 as int);
            assert(date_at(line@, p1 as int));
        }
        Some(normalize_date_str(line, p1))
    } else {
        None
    };

    let mut has_hours: Option<bool> = None;
    proof {
        lemma_first_time_from(line@, 0);
    }
    match first_time_str(line) {
        Some(p) => {
            let n = line.unicode_len();
            proof {
                assert(p.0 + p.1 <= n);
            }
            begin.append("T");
            begin.append(line.substring_char(p.0, p.0 + p.1));
            if p.1 <= 2 {
                begin.append(":00");
            }
            has_hours = Some(true);
            proof {
                reveal_strlit("T");
                reveal_strlit(":00");
                assert(begin@ =~= normalize_date(
                    line@.subrange(p0 as int, p0 + 10),
                ) + time_suffix(line@));
            }
        },
        None => {
            proof {
                assert(begin@ =~= normalize_date(
                    line@.subrange(p0 as int, p0 + 10),
                ) + time_suffix(line@));
            }
        },
    }

    let rec = Record { name, begin, end, has_hours };
    proof {
        assert(rec@.end == parse_spec(line@).end);
        assert(rec@ == parse_spec(line@));
    }
    Ok(rec)
}

/// The models of a list of records.
pub open spec fn models(rs: Seq<Record>) -> Seq<RecordModel> {
    rs.map_values(|r: Record| r@)
}

/// The records a whole document's physical lines yield: one per logical
/// entry line.
pub open spec fn records_spec(lines: Seq<Seq<char>>) -> Seq<RecordModel> {
    logical_lines(lines).map_values(|l: Seq<char>| parse_spec(l))
}

/// The whole pipeline: physical lines in, canonical records out. The
/// accumulator only yields lines with a date token, so parsing cannot
/// fail; the error case exists to fail loudly rather than emit a corrupt
/// record.
pub fn extract_records(lines: &Vec<String>) -> (r: Result<Vec<Record>, ParseError>)
    ensures
        r is Ok,
        r matches Ok(recs) ==> models(recs@) == records_spec(lines.deep_view()),
{
    let ghost goal = records_spec(lines.deep_view());
    let logical = accumulate(lines);
    let mut out: Vec<Record> = Vec::new();
    let mut k: usize = 0;
    proof {
        assert(models(out@) =~= goal.take(0));
    }
    while k < logical.len()
        invariant
            k <= logical.len(),
            goal == records_spec(lines.deep_view()),
            logical.deep_view() == logical_lines(lines.deep_view()),
            forall|j: int|
                0 <= j < logical.deep_view().len() ==> has_date(#[trigger] logical.deep_view()[j]),
            models(out@) == goal.take(k as int),
        decreases logical.len() - k,
    {
        let line = logical[k].as_str();
        proof {
            assert(logical.deep_view()[k as int] == line@);
            assert(goal[k as int] == parse_spec(line@));
        }
        match parse(line) {
            Ok(rec) => {
                out.push(rec);
                proof {
                    assert(models(out@) =~= goal.take(k as int + 1));
                }
            },
            Err(e) => {
                proof {
                    assert(false);
                }
                return Err(e);
            },
        }
        k = k + 1;
    }
    proof {
        assert(goal.take(k as int) =~= goal);
    }
    Ok(out)
}

} // verus!
