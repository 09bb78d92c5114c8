//! Header field extraction: a task header line carries a project tag in
//! brackets, an estimate in parentheses, and the task name and notes around
//! a full-width colon.

use vstd::prelude::*;

use crate::num::parse_i32;
use crate::num::parse_i32_spec;
use crate::record::LogItem;
use crate::record::LogItemView;
use crate::text::get_text_after;
use crate::text::get_text_between;
use crate::text::text_after_spec;
use crate::text::text_between_spec;
use crate::text::FULL_COLON;

verus! {

/// The project tag: between the first `[` and the first `]`.
pub open spec fn header_project(line: Seq<char>) -> Seq<char> {
    text_between_spec(line, '[', ']')
}

/// The task name: between the first `]` and the full-width colon.
pub open spec fn header_name(line: Seq<char>) -> Seq<char> {
    text_between_spec(line, ']', FULL_COLON)
}

/// The notes: the remainder of the line after the full-width colon.
pub open spec fn header_notes(line: Seq<char>) -> Seq<char> {
    text_after_spec(line, FULL_COLON)
}

/// The estimate text: between the first `(` and the first `)`.
pub open spec fn header_estimate_text(line: Seq<char>) -> Seq<char> {
    text_between_spec(line, '(', ')')
}

/// Whether the estimate text reads as an integer. A header whose estimate
/// does not parse is fatal to the whole ingestion run.
pub open spec fn header_estimate_ok(line: Seq<char>) -> bool {
    parse_i32_spec(header_estimate_text(line)) is Some
}

/// The planned minutes parsed from the header.
pub open spec fn header_estimate(line: Seq<char>) -> int {
    parse_i32_spec(header_estimate_text(line))->0 as int
}

/// The record with its task-identity fields replaced by what the header
/// carries; date, start, end and review stay as they were.
pub open spec fn rec_with_header(rec: LogItemView, line: Seq<char>) -> LogItemView {
    LogItemView {
        name: header_name(line),
        notes: header_notes(line),
        project: header_project(line),
        estimate: header_estimate(line),
        ..rec
    }
}

/// The fatal ingestion failure: a header whose parenthesized estimate is not
/// an integer. It names the task parsed from the offending line.
#[derive(Debug)]
pub enum IngestError {
    MalformedEstimate { name: String },
}

/// Populate the record's task-identity fields from a header line. A line
/// whose estimate does not parse leaves the record as it was and aborts
/// with the offending task name.
pub fn process_task_line(line: &str, one_log: &mut LogItem) -> (r: Result<(), IngestError>)
    ensures
        match r {
            Ok(()) => header_estimate_ok(line@) && (final(one_log)@ == rec_with_header(
                old(one_log)@,
                line@,
            )),
            Err(e) => !header_estimate_ok(line@) && *final(one_log) == *old(one_log) && (match e {
                IngestError::MalformedEstimate { name } => name@ == header_name(line@),
            }),
        },
{
    let est_text = get_text_between(line, '(', ')');
    let est = match parse_i32(est_text.as_str()) {
        Some(v) => v,
        None => {
            let name = get_text_between(line, ']', FULL_COLON);
            return Err(IngestError::MalformedEstimate { name });
        },
    };
    let name = get_text_between(line, ']', FULL_COLON);
    let notes = get_text_after(line, FULL_COLON);
    let project = get_text_between(line, '[', ']');
    one_log.set_name(name);
    one_log.set_notes(notes);
    one_log.set_project(project);
    one_log.set_estimate(est);
    Ok(())
}

} // verus!
