use tasklog::header::IngestError;
use tasklog::ingest::ingest_lines;
use tasklog::ingest::Accumulator;

fn lines_of(raw: &[&str]) -> Vec<String> {
    raw.iter().map(|s| s.to_string()).collect()
}

#[test]
fn two_complete_tasks_two_records() {
    let lines = lines_of(&[
        "- 09:00 (30) [proj1] Task one\u{FF1A}first notes",
        "  - 09:00",
        "  - 09:45",
        "- 10:00 (45) [proj2] Task two\u{FF1A}second notes",
        "  - 10:00",
        "  - 11:00",
    ]);
    let recs = ingest_lines(&lines, "2020-05-01".to_string()).unwrap();
    assert_eq!(recs.len(), 2);
    assert_eq!(recs[0].name, "Task one");
    assert_eq!(recs[0].project, "proj1");
    assert_eq!(recs[0].notes, "first notes");
    assert_eq!(recs[0].estimate, 30);
    assert_eq!(recs[0].start, "09:00");
    assert_eq!(recs[0].end, "09:45");
    assert_eq!(recs[0].review, "");
    assert_eq!(recs[0].date, "2020-05-01");
    assert_eq!(recs[1].name, "Task two");
    assert_eq!(recs[1].project, "proj2");
    assert_eq!(recs[1].notes, "second notes");
    assert_eq!(recs[1].estimate, 45);
    assert_eq!(recs[1].start, "10:00");
    assert_eq!(recs[1].end, "11:00");
    assert_eq!(recs[1].date, "2020-05-01");
}

#[test]
fn last_task_without_end_still_flushed() {
    let lines = lines_of(&[
        "- 09:00 (30) [p] Done task\u{FF1A}n1",
        "  - 09:00",
        "  - 09:30",
        "- 10:00 (20) [p] Open task\u{FF1A}n2",
        "  - 10:00",
    ]);
    let recs = ingest_lines(&lines, "2020-05-02".to_string()).unwrap();
    assert_eq!(recs.len(), 2);
    assert_eq!(recs[1].name, "Open task");
    assert_eq!(recs[1].start, "10:00");
    assert_eq!(recs[1].end, "");
}

#[test]
fn two_headers_without_subfields_single_record() {
    let lines = lines_of(&[
        "- 09:00 (30) [p1] First\u{FF1A}a",
        "- 10:00 (40) [p2] Second\u{FF1A}b",
    ]);
    let recs = ingest_lines(&lines, "2020-05-03".to_string()).unwrap();
    assert_eq!(recs.len(), 1);
    assert_eq!(recs[0].name, "Second");
    assert_eq!(recs[0].project, "p2");
    assert_eq!(recs[0].estimate, 40);
    assert_eq!(recs[0].start, "");
    assert_eq!(recs[0].end, "");
}

#[test]
fn malformed_estimate_aborts_with_name() {
    let lines = lines_of(&[
        "- 09:00 (abc) [p] Broken task\u{FF1A}notes",
        "  - 09:00",
    ]);
    let err = ingest_lines(&lines, "2020-05-04".to_string()).unwrap_err();
    let IngestError::MalformedEstimate { name } = err;
    assert_eq!(name, "Broken task");
}

#[test]
fn estimate_overflow_is_malformed() {
    let lines = lines_of(&["- 09:00 (2147483648) [p] Too big\u{FF1A}x"]);
    let err = ingest_lines(&lines, "2020-05-04".to_string()).unwrap_err();
    let IngestError::MalformedEstimate { name } = err;
    assert_eq!(name, "Too big");
}

#[test]
fn negative_estimate_is_accepted() {
    let lines = lines_of(&["- 09:00 (-5) [p] Negative\u{FF1A}x"]);
    let recs = ingest_lines(&lines, "d".to_string()).unwrap();
    assert_eq!(recs[0].estimate, -5);
}

#[test]
fn flush_happens_before_malformed_header_fault() {
    let mut acc = Accumulator::new("2020-05-05".to_string());
    let steps = [
        "- 09:00 (30) [p] Complete\u{FF1A}n",
        "  - 09:00",
        "  - 09:30",
    ];
    for s in steps.iter() {
        let (flushed, fault) = acc.apply_line(s);
        assert!(flushed.is_none());
        assert!(fault.is_none());
    }
    let (flushed, fault) = acc.apply_line("- 10:00 (nope) [p] Bad\u{FF1A}n");
    let rec = flushed.expect("the complete record is flushed ahead of the fault");
    assert_eq!(rec.name, "Complete");
    assert_eq!(rec.start, "09:00");
    assert_eq!(rec.end, "09:30");
    let IngestError::MalformedEstimate { name } = fault.expect("the bad header is a fault");
    assert_eq!(name, "Bad");
}

#[test]
fn five_char_nontime_classified_as_time() {
    let lines = lines_of(&[
        "- 09:00 (30) [p] Task\u{FF1A}n",
        "  - oops!",
    ]);
    let recs = ingest_lines(&lines, "d".to_string()).unwrap();
    assert_eq!(recs.len(), 1);
    assert_eq!(recs[0].start, "oops!");
    assert_eq!(recs[0].review, "");
}

#[test]
fn long_subfield_is_review_and_overwrites() {
    let lines = lines_of(&[
        "- 09:00 (30) [p] Task\u{FF1A}n",
        "  - first review text",
        "  - second review text",
    ]);
    let recs = ingest_lines(&lines, "d".to_string()).unwrap();
    assert_eq!(recs.len(), 1);
    assert_eq!(recs[0].review, "second review text");
    assert_eq!(recs[0].start, "");
}

#[test]
fn third_time_overwrites_end() {
    let lines = lines_of(&[
        "- 09:00 (30) [p] Task\u{FF1A}n",
        "  - 09:00",
        "  - 09:30",
        "  - 09:45",
    ]);
    let recs = ingest_lines(&lines, "d".to_string()).unwrap();
    assert_eq!(recs.len(), 1);
    assert_eq!(recs[0].start, "09:00");
    assert_eq!(recs[0].end, "09:45");
}

#[test]
fn subfield_before_first_header_is_ignored() {
    let lines = lines_of(&[
        "  - 08:00",
        "- 09:00 (30) [p] Task\u{FF1A}n",
        "  - 10:00",
    ]);
    let recs = ingest_lines(&lines, "d".to_string()).unwrap();
    assert_eq!(recs.len(), 1);
    assert_eq!(recs[0].start, "10:00");
    assert_eq!(recs[0].end, "");
}

#[test]
fn empty_file_yields_no_records() {
    let lines: Vec<String> = Vec::new();
    let recs = ingest_lines(&lines, "d".to_string()).unwrap();
    assert!(recs.is_empty());
}

#[test]
fn stray_lines_are_ignored() {
    let lines = lines_of(&[
        "# heading",
        "",
        "- 09:00 (30) [p] Task\u{FF1A}n",
        "some stray text",
        "  - 09:00",
        "",
        "  - 09:30",
        "-no space after dash",
    ]);
    let recs = ingest_lines(&lines, "d".to_string()).unwrap();
    assert_eq!(recs.len(), 1);
    assert_eq!(recs[0].start, "09:00");
    assert_eq!(recs[0].end, "09:30");
}

#[test]
fn incomplete_header_overwrite_keeps_times() {
    let lines = lines_of(&[
        "- 09:00 (30) [p1] First\u{FF1A}a",
        "  - 09:00",
        "- 10:00 (40) [p2] Second\u{FF1A}b",
        "  - 10:30",
    ]);
    let recs = ingest_lines(&lines, "d".to_string()).unwrap();
    assert_eq!(recs.len(), 1);
    assert_eq!(recs[0].name, "Second");
    assert_eq!(recs[0].project, "p2");
    assert_eq!(recs[0].start, "09:00");
    assert_eq!(recs[0].end, "10:30");
}

#[test]
fn header_without_brackets_falls_back() {
    let line = "- 09:00 (15) Task without brackets\u{FF1A}notes here";
    let lines = lines_of(&[line]);
    let recs = ingest_lines(&lines, "d".to_string()).unwrap();
    assert_eq!(recs.len(), 1);
    // with no bracket pair, the scan starts right after position 0 and runs
    // to the end of the line
    assert_eq!(recs[0].project, "09:00 (15) Task without brackets\u{FF1A}notes here");
    assert_eq!(recs[0].name, "09:00 (15) Task without brackets");
    assert_eq!(recs[0].notes, "notes here");
    assert_eq!(recs[0].estimate, 15);
}

#[test]
fn header_without_colon_has_empty_notes() {
    let lines = lines_of(&["- 09:00 (15) [p] No colon here"]);
    let recs = ingest_lines(&lines, "d".to_string()).unwrap();
    assert_eq!(recs.len(), 1);
    assert_eq!(recs[0].notes, "");
    assert_eq!(recs[0].name, "No colon here");
}

#[test]
fn ascii_colon_is_not_the_separator() {
    let lines = lines_of(&["- 09:00 (15) [p] Name: with ascii colon\u{FF1A}real notes"]);
    let recs = ingest_lines(&lines, "d".to_string()).unwrap();
    assert_eq!(recs[0].name, "Name: with ascii colon");
    assert_eq!(recs[0].notes, "real notes");
}

#[test]
fn accumulator_finish_without_header_is_none() {
    let acc = Accumulator::new("d".to_string());
    assert!(acc.finish().is_none());
}

#[test]
fn accumulator_finish_after_header_flushes_once() {
    let mut acc = Accumulator::new("2020-01-01".to_string());
    let (flushed, fault) = acc.apply_line("- 09:00 (10) [p] Only\u{FF1A}x");
    assert!(flushed.is_none());
    assert!(fault.is_none());
    let rec = acc.finish().expect("the open record is flushed at end of input");
    assert_eq!(rec.name, "Only");
    assert_eq!(rec.date, "2020-01-01");
}
