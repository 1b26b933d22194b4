use date_scraper::accumulate::accumulate;
use date_scraper::parse::parse;
use date_scraper::parse::extract_records;
use date_scraper::parse::ParseError;

fn lines(v: Vec<&str>) -> Vec<String> {
    let mut r: Vec<String> = Vec::new();
    for s in v {
        r.push(s.to_string());
    }
    r
}

#[test]
fn single_date_no_extras() {
    let rec = parse("05.11.2024 ").unwrap();
    assert_eq!(rec.name, "");
    assert_eq!(rec.begin, "2024-11-05");
    assert_eq!(rec.end, None);
    assert_eq!(rec.has_hours, None);
}

#[test]
fn date_with_time() {
    let rec = parse("05.11.2024 14 Uhr").unwrap();
    assert_eq!(rec.begin, "2024-11-05T14:00");
    assert_eq!(rec.end, None);
    assert_eq!(rec.has_hours, Some(true));
}

#[test]
fn hour_is_not_zero_padded() {
    let rec = parse("Vorlesungsbeginn 05.11.2024 9 Uhr").unwrap();
    assert_eq!(rec.name, "Vorlesungsbeginn");
    assert_eq!(rec.begin, "2024-11-05T9:00");
}

#[test]
fn minutes_are_kept() {
    let rec = parse("Sitzung 05.11.2024 14:30 Uhr").unwrap();
    assert_eq!(rec.begin, "2024-11-05T14:30");
    assert_eq!(rec.has_hours, Some(true));
}

#[test]
fn deadline_qualifier_is_stripped() {
    let rec = parse("Rückmeldung spätestens bis 01.03.2025 ").unwrap();
    assert_eq!(rec.name, "Rückmeldung");
    assert_eq!(rec.begin, "2025-03-01");
}

#[test]
fn second_date_becomes_end() {
    let rec = parse("Klausurzeitraum 10.02.2025 bis 21.02.2025 ").unwrap();
    assert_eq!(rec.name, "Klausurzeitraum");
    assert_eq!(rec.begin, "2025-02-10");
    assert_eq!(rec.end, Some("2025-02-21".to_string()));
    assert_eq!(rec.has_hours, None);
}

#[test]
fn third_date_is_ignored() {
    let rec = parse("01.01.2025 02.02.2025 03.03.2025").unwrap();
    assert_eq!(rec.begin, "2025-01-01");
    assert_eq!(rec.end, Some("2025-02-02".to_string()));
}

#[test]
fn time_attaches_to_begin_only_and_first_time_wins() {
    let rec = parse("Frist 01.03.2025 9 Uhr bis 15.03.2025 14 Uhr").unwrap();
    assert_eq!(rec.begin, "2025-03-01T9:00");
    assert_eq!(rec.end, Some("2025-03-15".to_string()));
    assert_eq!(rec.has_hours, Some(true));
}

#[test]
fn line_without_date_is_malformed() {
    let r = parse("Anmeldefrist");
    assert!(matches!(r, Err(ParseError::MalformedEntry)));
}

#[test]
fn noise_line_contributes_nothing() {
    let out = accumulate(&lines(vec!["Wintersemester 2024/25"]));
    assert_eq!(out.len(), 0);
}

#[test]
fn noise_line_does_not_reset_the_entry() {
    let out = accumulate(&lines(vec!["Anmeldefrist", "Wintersemester 2024/25", "01.03.2025"]));
    assert_eq!(out, vec!["Anmeldefrist 01.03.2025 ".to_string()]);
}

#[test]
fn all_boilerplate_markers_are_filtered() {
    let out = accumulate(&lines(vec![
        "Sommersemester 2025",
        "Semestertermine für Ihr Studium",
        "Einschreibung für das 2. Semester",
    ]));
    assert_eq!(out.len(), 0);
}

#[test]
fn empty_input_yields_nothing() {
    let out = accumulate(&lines(vec![]));
    assert_eq!(out.len(), 0);
}

#[test]
fn blank_lines_are_dropped() {
    let out = accumulate(&lines(vec!["", "   ", "01.03.2025"]));
    assert_eq!(out, vec!["01.03.2025 ".to_string()]);
}

#[test]
fn unterminated_tail_is_dropped() {
    let out = accumulate(&lines(vec!["Anmeldefrist ohne Datum"]));
    assert_eq!(out.len(), 0);
}

#[test]
fn wrapped_lines_are_merged_and_trimmed() {
    let out = accumulate(&lines(vec!["  Anmeldefrist  ", "\t01.03.2025 "]));
    assert_eq!(out, vec!["Anmeldefrist 01.03.2025 ".to_string()]);
}

// A physical line that holds a date terminates the logical line at once,
// so a date line ending in "bis" does not merge with the following date
// line: the second date starts an entry of its own, with an empty name.
#[test]
fn end_to_end_merge_stops_at_the_first_date_line() {
    let input = lines(vec![
        "Einschreibung für das 1. Semester",
        "Anmeldefrist",
        "01.03.2025 bis",
        "15.03.2025",
    ]);
    let recs = extract_records(&input).unwrap();
    assert_eq!(recs.len(), 2);
    assert_eq!(recs[0].name, "Anmeldefrist");
    assert_eq!(recs[0].begin, "2025-03-01");
    assert_eq!(recs[0].end, None);
    assert_eq!(recs[0].has_hours, None);
    assert_eq!(recs[1].name, "");
    assert_eq!(recs[1].begin, "2025-03-15");
    assert_eq!(recs[1].end, None);
}

#[test]
fn one_wrapped_entry_with_both_dates_in_one_line() {
    let input = lines(vec!["Anmeldefrist", "01.03.2025 bis 15.03.2025"]);
    let recs = extract_records(&input).unwrap();
    assert_eq!(recs.len(), 1);
    assert_eq!(recs[0].name, "Anmeldefrist");
    assert_eq!(recs[0].begin, "2025-03-01");
    assert_eq!(recs[0].end, Some("2025-03-15".to_string()));
}
