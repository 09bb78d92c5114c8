//! The ingestion state machine. One record is under construction at a time;
//! classified lines mutate it, a new header flushes it once both times are
//! filled, and the end of input flushes the open record unconditionally, so
//! the last task of a file is never dropped.

use vstd::prelude::*;

use crate::classify::classify_line;
use crate::classify::has_header_prefix;
use crate::classify::has_subfield_prefix;
use crate::classify::LineKind;
use crate::header::header_estimate_ok;
use crate::header::header_name;
use crate::header::process_task_line;
use crate::header::rec_with_header;
use crate::header::IngestError;
use crate::record::empty_rec;
use crate::record::LogItem;
use crate::record::LogItemView;
use crate::text::trim_of;
use crate::text::trim_spec;

verus! {

/// The value carried by a subfield line: everything after the
/// three-character prefix, trimmed.
pub open spec fn subfield_value(line: Seq<char>) -> Seq<char> {
    trim_spec(line.subrange(3, line.len() as int))
}

/// The length heuristic that tells a clock time from review commentary:
/// trimmed text of at most five characters is taken for a time (`HH:MM` is
/// exactly five), anything longer for review text. The heuristic is length
/// alone, deliberately: a short value that is no valid time is still stored
/// as one and only fails later, at report time.
pub open spec fn is_time_like(v: Seq<char>) -> bool {
    v.len() <= 5
}

/// A record is complete once both of its times are filled; only a complete
/// record is flushed when a new header arrives.
pub open spec fn rec_complete(rec: LogItemView) -> bool {
    rec.start.len() > 0 && rec.end.len() > 0
}

/// The record after a flush: start, end and review cleared, everything else
/// kept (the identity fields are about to be overwritten by the new header).
pub open spec fn rec_cleared(rec: LogItemView) -> LogItemView {
    LogItemView { start: Seq::empty(), end: Seq::empty(), review: Seq::empty(), ..rec }
}

/// A subfield applied to the record under construction: a time-like value
/// fills `start` when it is still empty and `end` from the second time on
/// (a third would overwrite `end` again); longer text replaces the review
/// note.
pub open spec fn rec_with_subfield(rec: LogItemView, line: Seq<char>) -> LogItemView {
    let v = subfield_value(line);
    if is_time_like(v) {
        if rec.start.len() == 0 {
            LogItemView { start: v, ..rec }
        } else {
            LogItemView { end: v, ..rec }
        }
    } else {
        LogItemView { review: v, ..rec }
    }
}

/// The accumulator's ghost state: the record under construction and whether
/// any header has opened one yet.
#[verifier::ext_equal]
pub struct AccView {
    pub rec: LogItemView,
    pub started: bool,
}

/// What one line does to the accumulator: at most one record flushed, the
/// state afterwards, and the fatal fault when the line is a header whose
/// estimate does not parse. A complete record is flushed even on such a
/// line: the flush comes ahead of field extraction.
#[verifier::ext_equal]
pub struct StepView {
    pub flushed: Option<LogItemView>,
    pub st: AccView,
    pub fault: Option<Seq<char>>,
}

/// The result of a run over many lines: the records flushed in file order,
/// the state after the last line, and the first fault when one arose.
#[verifier::ext_equal]
pub struct RunView {
    pub out: Seq<LogItemView>,
    pub st: AccView,
    pub fault: Option<Seq<char>>,
}

/// One transition of the accumulator on one raw line.
///
/// A header line flushes the open record when both its times are filled
/// (clearing start, end and review), and in every case overwrites the
/// task-identity fields with what the header carries; a header that arrives
/// while the record is incomplete overwrites in place, with no flush. A
/// subfield line mutates the open record and is a no-op before the first
/// header. Every other line is ignored.
pub open spec fn step_spec(st: AccView, line: Seq<char>) -> StepView {
    if has_header_prefix(line) {
        let flushes = st.started && rec_complete(st.rec);
        let flushed = if flushes {
            Some(st.rec)
        } else {
            Option::<LogItemView>::None
        };
        let base = if flushes {
            rec_cleared(st.rec)
        } else {
            st.rec
        };
        if header_estimate_ok(line) {
            StepView {
                flushed: flushed,
                st: AccView { rec: rec_with_header(base, line), started: true },
                fault: None,
            }
        } else {
            StepView {
                flushed: flushed,
                st: AccView { rec: base, started: st.started },
                fault: Some(header_name(line)),
            }
        }
    } else if has_subfield_prefix(line) {
        if st.started {
            StepView {
                flushed: None,
                st: AccView { rec: rec_with_subfield(st.rec, line), started: true },
                fault: None,
            }
        } else {
            StepView { flushed: None, st: st, fault: None }
        }
    } else {
        StepView { flushed: None, st: st, fault: None }
    }
}

/// A flushed record as a sequence: one element or none.
pub open spec fn opt_rec_seq(o: Option<LogItemView>) -> Seq<LogItemView> {
    match o {
        Some(r) => seq![r],
        None => Seq::empty(),
    }
}

/// The accumulator run over a sequence of lines, stopping at the first
/// fault.
pub open spec fn run_steps(st: AccView, lines: Seq<Seq<char>>) -> RunView
    decreases lines.len(),
{
    if lines.len() == 0 {
        RunView { out: Seq::empty(), st: st, fault: None }
    } else {
        let s0 = step_spec(st, lines[0]);
        match s0.fault {
            Some(name) => RunView { out: opt_rec_seq(s0.flushed), st: s0.st, fault: Some(name) },
            None => {
                let r = run_steps(s0.st, lines.drop_first());
                RunView { out: opt_rec_seq(s0.flushed) + r.out, st: r.st, fault: r.fault }
            },
        }
    }
}

/// The state before any line: nothing open, every field empty, the file's
/// date stamped on the record.
pub open spec fn init_acc(date: Seq<char>) -> AccView {
    AccView { rec: empty_rec(date), started: false }
}

/// The whole-file result: every record flushed during the run and, when any
/// header ever opened a record, one final unconditional flush of the open
/// record — even when it was never completed. A fault aborts the run with
/// the offending task name.
pub open spec fn ingest_spec(lines: Seq<Seq<char>>, date: Seq<char>) -> Result<
    Seq<LogItemView>,
    Seq<char>,
> {
    let r = run_steps(init_acc(date), lines);
    match r.fault {
        Some(name) => Err(name),
        None => Ok(
            if r.st.started {
                r.out.push(r.st.rec)
            } else {
                r.out
            },
        ),
    }
}

/// Runs compose: running `a + b` is running `a`, and from the state it
/// reaches, running `b` — with a fault in `a` cutting the run short.
pub proof fn lemma_run_steps_append(st: AccView, a: Seq<Seq<char>>, b: Seq<Seq<char>>)
    ensures
        ({
            let ra = run_steps(st, a);
            let rab = run_steps(st, a + b);
            match ra.fault {
                Some(_) => rab == ra,
                None => {
                    let rb = run_steps(ra.st, b);
                    rab == (RunView { out: ra.out + rb.out, st: rb.st, fault: rb.fault })
                },
            }
        }),
    decreases a.len(),
{
    if a.len() == 0 {
        assert(a + b =~= b);
        let rb = run_steps(st, b);
        assert(run_steps(st, a).out + rb.out =~= rb.out);
    } else {
        let s0 = step_spec(st, a[0]);
        assert((a + b)[0] == a[0]);
        assert((a + b).drop_first() =~= a.drop_first() + b);
        match s0.fault {
            Some(_) => {},
            None => {
                lemma_run_steps_append(s0.st, a.drop_first(), b);
                let ra1 = run_steps(s0.st, a.drop_first());
                match ra1.fault {
                    Some(_) => {},
                    None => {
                        let rb = run_steps(ra1.st, b);
                        assert(opt_rec_seq(s0.flushed) + (ra1.out + rb.out) =~= (opt_rec_seq(
                            s0.flushed,
                        ) + ra1.out) + rb.out);
                    },
                }
            },
        }
    }
}

/// The value of a subfield line, extracted.
fn subfield_text(line: &str) -> (r: String)
    requires
        has_subfield_prefix(line@),
    ensures
        r@ == subfield_value(line@),
{
    let n = line.unicode_len();
    let rest = line.substring_char(3, n);
    let t = trim_of(rest);
    String::from_str(t)
}

/// The record accumulator: owns the record under construction and applies
/// classified lines to it, one at a time, in file order.
pub struct Accumulator {
    pub record: LogItem,
    pub started: bool,
}

impl View for Accumulator {
    type V = AccView;

    open spec fn view(&self) -> AccView {
        AccView { rec: self.record@, started: self.started }
    }
}

impl Accumulator {
    /// A fresh accumulator for one day's file. The date is fixed for the
    /// whole run and stamped onto every record.
    pub fn new(date: String) -> (r: Accumulator)
        ensures
            r@ == init_acc(date@),
    {
        let mut record = LogItem::default();
        record.date = date;
        Accumulator { record, started: false }
    }

    /// Apply one raw line. At most one record is flushed out; a header whose
    /// estimate does not parse is the fatal fault — the flush, when one was
    /// due, has already happened by the moment the fault is found.
    pub fn apply_line(&mut self, line: &str) -> (r: (Option<LogItem>, Option<IngestError>))
        ensures
            ({
                let s = step_spec(old(self)@, line@);
                &&& final(self)@ == s.st
                &&& (match r.0 {
                    Some(rec) => s.flushed == Some(rec@),
                    None => s.flushed is None,
                })
                &&& (match r.1 {
                    Some(e) => match e {
                        IngestError::MalformedEstimate { name } => s.fault == Some(name@),
                    },
                    None => s.fault is None,
                })
            }),
    {
        let kind = classify_line(line);
        match kind {
            LineKind::TaskHeader => {
                let mut flushed: Option<LogItem> = None;
                if self.started && !self.record.start.as_str().is_empty()
                    && !self.record.end.as_str().is_empty() {
                    let done = self.record.clone();
                    self.record.set_start(String::new());
                    self.record.set_end(String::new());
                    self.record.set_review(String::new());
                    flushed = Some(done);
                }
                match process_task_line(line, &mut self.record) {
                    Ok(()) => {
                        self.started = true;
                        (flushed, None)
                    },
                    Err(e) => (flushed, Some(e)),
                }
            },
            LineKind::SubField => {
                if self.started {
                    let v = subfield_text(line);
                    if v.as_str().unicode_len() <= 5 {
                        if self.record.start.as_str().is_empty() {
                            self.record.set_start(v);
                        } else {
                            self.record.set_end(v);
                        }
                    } else {
                        self.record.set_review(v);
                    }
                }
                (None, None)
            },
            LineKind::Ignored => (None, None),
        }
    }

    /// The final unconditional flush at end of input: the open record, when
    /// any header ever opened one.
    pub fn finish(self) -> (r: Option<LogItem>)
        ensures
            match r {
                Some(rec) => self@.started && rec@ == self@.rec,
                None => !self@.started,
            },
    {
        if self.started {
            Some(self.record)
        } else {
            None
        }
    }
}

/// Ingest a whole day's log: classify and apply every line in file order,
/// close with the final flush, and hand back the flushed records in order.
/// A header whose estimate does not parse aborts the run with the offending
/// task name; no later line is processed.
pub fn ingest_lines(lines: &Vec<String>, date: String) -> (r: Result<Vec<LogItem>, IngestError>)
    ensures
        match r {
            Ok(recs) => ingest_spec(lines.deep_view(), date@) == Ok::<_, Seq<char>>(
                recs.deep_view(),
            ),
            Err(e) => match e {
                IngestError::MalformedEstimate { name } => ingest_spec(lines.deep_view(), date@)
                    == Err::<Seq<LogItemView>, _>(name@),
            },
        },
{
    let ghost date_v = date@;
    let ghost lv = lines.deep_view();
    let mut acc = Accumulator::new(date);
    let mut out: Vec<LogItem> = Vec::new();
    let n = lines.len();
    let mut i: usize = 0;
    while i < n
        invariant
            n == lines.len(),
            0 <= i <= n,
            lv == lines.deep_view(),
            date_v == date@,
            ({
                let r = run_steps(init_acc(date_v), lv.take(i as int));
                &&& r.fault is None
                &&& r.st == acc@
                &&& r.out == out.deep_view()
            }),
        decreases n - i,
    {
        let ghost old_acc = acc@;
        let ghost old_out = out.deep_view();
        proof {
            assert(lv[i as int] == lines@[i as int]@);
        }
        let (flushed, fault) = acc.apply_line(lines[i].as_str());
        let ghost s = step_spec(old_acc, lv[i as int]);
        match flushed {
            Some(rec) => {
                out.push(rec);
                proof {
                    assert(out.deep_view() =~= old_out.push(rec@));
                    assert(old_out + opt_rec_seq(s.flushed) =~= old_out.push(rec@));
                }
            },
            None => {
                proof {
                    assert(old_out + opt_rec_seq(s.flushed) =~= old_out);
                }
            },
        }
        match fault {
            Some(e) => {
                proof {
                    let rest = lv.subrange(i as int, n as int);
                    lemma_run_steps_append(init_acc(date_v), lv.take(i as int), rest);
                    assert(lv.take(i as int) + rest =~= lv);
                    assert(rest[0] == lv[i as int]);
                    assert(run_steps(init_acc(date_v), lv).fault == s.fault);
                }
                return Err(e);
            },
            None => {},
        }
        proof {
            lemma_run_steps_append(init_acc(date_v), lv.take(i as int), seq![lv[i as int]]);
            assert(lv.take(i as int) + seq![lv[i as int]] =~= lv.take(i as int + 1));
            let single = seq![lv[i as int]];
            assert(single[0] == lv[i as int]);
            assert(single.drop_first() =~= Seq::<Seq<char>>::empty());
            assert(opt_rec_seq(s.flushed) + run_steps(s.st, single.drop_first()).out =~= opt_rec_seq(
                s.flushed,
            ));
        }
        i = i + 1;
    }
    proof {
        assert(lv.take(n as int) =~= lv);
    }
    let ghost pre_out = out.deep_view();
    match acc.finish() {
        Some(rec) => {
            out.push(rec);
            proof {
                assert(out.deep_view() =~= pre_out.push(rec@));
            }
        },
        None => {},
    }
    Ok(out)
}

} // verus!
