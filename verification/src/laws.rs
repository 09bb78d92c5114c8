//! The library's stated laws: properties of the ingestion state machine
//! proved once and for all, over the same spec functions its contracts use.

use vstd::prelude::*;

use crate::classify::has_header_prefix;
use crate::classify::has_subfield_prefix;
use crate::header::header_estimate;
use crate::header::header_estimate_ok;
use crate::header::header_estimate_text;
use crate::header::header_name;
use crate::header::header_notes;
use crate::header::header_project;
use crate::header::rec_with_header;
use crate::ingest::ingest_spec;
use crate::ingest::init_acc;
use crate::ingest::lemma_run_steps_append;
use crate::ingest::opt_rec_seq;
use crate::ingest::RunView;
use crate::ingest::is_time_like;
use crate::ingest::rec_complete;
use crate::ingest::run_steps;
use crate::ingest::step_spec;
use crate::ingest::subfield_value;
use crate::ingest::AccView;
use crate::num::dec_rep;
use crate::num::is_digit_char;
use crate::num::lemma_dec_rep_chars;
use crate::num::lemma_parse_dec_rep;
use crate::record::empty_rec;
use crate::record::plan_line_spec;
use crate::record::LogItemView;
use crate::record::TaskView;
use crate::text::is_space_char;
use crate::text::lemma_find_char_at;
use crate::text::lemma_trim_id;
use crate::text::lemma_trim_space_around;
use crate::text::trim_spec;
use crate::text::FULL_COLON;

verus! {

/// A subfield whose trimmed text has at most five characters is stored as a
/// time — into `start` while it is empty, into `end` afterwards — even when
/// the text is no valid clock time at all. The review note is never touched
/// by such a line.
pub proof fn lemma_short_subfield_stored_as_time(st: AccView, line: Seq<char>)
    requires
        st.started,
        has_subfield_prefix(line),
        is_time_like(subfield_value(line)),
    ensures
        step_spec(st, line).fault is None,
        step_spec(st, line).flushed is None,
        step_spec(st, line).st.rec == (if st.rec.start.len() == 0 {
            LogItemView { start: subfield_value(line), ..st.rec }
        } else {
            LogItemView { end: subfield_value(line), ..st.rec }
        }),
{
    assert(!has_header_prefix(line));
}

/// A new header that arrives while the open record is incomplete — `start`
/// or `end` still empty — flushes nothing: it overwrites the task-identity
/// fields in place and leaves the times and the review as they were.
pub proof fn lemma_no_flush_while_incomplete(st: AccView, line: Seq<char>)
    requires
        has_header_prefix(line),
        header_estimate_ok(line),
        !(st.started && rec_complete(st.rec)),
    ensures
        step_spec(st, line).flushed is None,
        step_spec(st, line).fault is None,
        step_spec(st, line).st == (AccView { rec: rec_with_header(st.rec, line), started: true }),
{
}

/// Two consecutive header lines with no subfields between them yield exactly
/// one record: the second header's fields over an otherwise empty record,
/// flushed only by the final flush at end of input.
pub proof fn lemma_two_headers_one_record(h1: Seq<char>, h2: Seq<char>, date: Seq<char>)
    requires
        has_header_prefix(h1),
        header_estimate_ok(h1),
        has_header_prefix(h2),
        header_estimate_ok(h2),
    ensures
        ingest_spec(seq![h1, h2], date) == Ok::<_, Seq<char>>(
            seq![rec_with_header(empty_rec(date), h2)],
        ),
{
    let lines = seq![h1, h2];
    let st0 = init_acc(date);
    let s1 = step_spec(st0, h1);
    assert(lines[0] == h1);
    assert(lines.drop_first() =~= seq![h2]);
    let st1 = s1.st;
    assert(!rec_complete(st1.rec));
    let s2 = step_spec(st1, h2);
    let st2 = s2.st;
    assert(seq![h2].drop_first() =~= Seq::<Seq<char>>::empty());
    let r3 = run_steps(st2, Seq::<Seq<char>>::empty());
    assert(r3.fault is None && r3.st == st2 && r3.out == Seq::<LogItemView>::empty());
    let r2 = run_steps(st1, seq![h2]);
    assert(seq![h2][0] == h2);
    assert(r2.fault is None && r2.st == st2);
    assert(r2.out =~= Seq::<LogItemView>::empty());
    let r = run_steps(st0, lines);
    assert(r.fault is None);
    assert(r.st == st2);
    assert(r.out =~= Seq::<LogItemView>::empty());
    assert(r.st.rec =~= rec_with_header(empty_rec(date), h2));
    assert(r.out.push(r.st.rec) =~= seq![rec_with_header(empty_rec(date), h2)]);
}

/// The date is fixed for a whole ingestion run: every record a run emits
/// carries the date the run was started with, whatever the lines hold.
pub proof fn lemma_date_stamped_on_every_record(lines: Seq<Seq<char>>, date: Seq<char>)
    ensures
        match ingest_spec(lines, date) {
            Ok(out) => forall|i: int| 0 <= i < out.len() ==> (#[trigger] out[i]).date == date,
            Err(_) => true,
        },
{
    lemma_run_date_stamped(init_acc(date), lines, date);
}

proof fn lemma_run_date_stamped(st: AccView, lines: Seq<Seq<char>>, date: Seq<char>)
    requires
        st.rec.date == date,
    ensures
        run_steps(st, lines).st.rec.date == date,
        forall|i: int|
            0 <= i < run_steps(st, lines).out.len() ==> (#[trigger] run_steps(
                st,
                lines,
            ).out[i]).date == date,
    decreases lines.len(),
{
    if lines.len() > 0 {
        let s0 = step_spec(st, lines[0]);
        assert(s0.st.rec.date == date);
        match s0.fault {
            Some(_) => {
                let r = run_steps(st, lines);
                assert forall|i: int| 0 <= i < r.out.len() implies (#[trigger] r.out[i]).date
                    == date by {
                    assert(r.out[i] == opt_rec_seq(s0.flushed)[i]);
                }
            },
            None => {
                lemma_run_date_stamped(s0.st, lines.drop_first(), date);
                let r1 = run_steps(s0.st, lines.drop_first());
                let r = run_steps(st, lines);
                assert forall|i: int| 0 <= i < r.out.len() implies (#[trigger] r.out[i]).date
                    == date by {
                    if i >= opt_rec_seq(s0.flushed).len() {
                        assert(r.out[i] == r1.out[i - opt_rec_seq(s0.flushed).len()]);
                    } else {
                        assert(r.out[i] == opt_rec_seq(s0.flushed)[i]);
                    }
                }
            },
        }
    }
}

/// One task's lines in a day log: a header and its two time subfields.
pub struct TaskBlock {
    pub header: Seq<char>,
    pub t_start: Seq<char>,
    pub t_end: Seq<char>,
}

pub open spec fn block_lines(b: TaskBlock) -> Seq<Seq<char>> {
    seq![b.header, b.t_start, b.t_end]
}

pub open spec fn blocks_lines(bs: Seq<TaskBlock>) -> Seq<Seq<char>>
    decreases bs.len(),
{
    if bs.len() == 0 {
        Seq::empty()
    } else {
        block_lines(bs[0]) + blocks_lines(bs.drop_first())
    }
}

/// A well-formed block: a header whose estimate parses, followed by two
/// nonempty time-like subfields.
pub open spec fn block_wf(b: TaskBlock) -> bool {
    &&& has_header_prefix(b.header)
    &&& header_estimate_ok(b.header)
    &&& has_subfield_prefix(b.t_start)
    &&& is_time_like(subfield_value(b.t_start))
    &&& subfield_value(b.t_start).len() > 0
    &&& has_subfield_prefix(b.t_end)
    &&& is_time_like(subfield_value(b.t_end))
    &&& subfield_value(b.t_end).len() > 0
}

/// The record such a block produces.
pub open spec fn block_rec(b: TaskBlock, date: Seq<char>) -> LogItemView {
    LogItemView {
        name: header_name(b.header),
        notes: header_notes(b.header),
        project: header_project(b.header),
        estimate: header_estimate(b.header),
        date: date,
        start: subfield_value(b.t_start),
        end: subfield_value(b.t_end),
        review: Seq::empty(),
    }
}

pub open spec fn block_recs(bs: Seq<TaskBlock>, date: Seq<char>) -> Seq<LogItemView> {
    bs.map_values(|b: TaskBlock| block_rec(b, date))
}

/// Running one well-formed block flushes exactly the record that was
/// pending (none when no header has been seen yet) and leaves the block's
/// own record open and complete.
pub proof fn lemma_block_run(st: AccView, b: TaskBlock)
    requires
        block_wf(b),
        st.started ==> rec_complete(st.rec),
        !st.started ==> st.rec.start.len() == 0 && st.rec.end.len() == 0 && st.rec.review.len()
            == 0,
    ensures
        run_steps(st, block_lines(b)) == (RunView {
            out: if st.started {
                seq![st.rec]
            } else {
                Seq::<LogItemView>::empty()
            },
            st: AccView { rec: block_rec(b, st.rec.date), started: true },
            fault: None,
        }),
{
    let lines = block_lines(b);
    assert(lines[0] == b.header);
    assert(lines.drop_first() =~= seq![b.t_start, b.t_end]);
    let s1 = step_spec(st, b.header);
    let st1 = s1.st;
    assert(st1.rec.start.len() == 0 && st1.rec.end.len() == 0 && st1.rec.review =~= Seq::<
        char,
    >::empty());
    assert(!has_header_prefix(b.t_start));
    assert(!has_header_prefix(b.t_end));
    let s2 = step_spec(st1, b.t_start);
    let st2 = s2.st;
    assert(st2.rec.start == subfield_value(b.t_start));
    assert(st2.rec.start.len() > 0);
    let s3 = step_spec(st2, b.t_end);
    let st3 = s3.st;
    assert(seq![b.t_start, b.t_end].drop_first() =~= seq![b.t_end]);
    assert(seq![b.t_end].drop_first() =~= Seq::<Seq<char>>::empty());
    let r4 = run_steps(st3, Seq::<Seq<char>>::empty());
    assert(r4.fault is None && r4.st == st3 && r4.out == Seq::<LogItemView>::empty());
    let r3 = run_steps(st2, seq![b.t_end]);
    assert(seq![b.t_end][0] == b.t_end);
    assert(r3.fault is None && r3.st == st3);
    assert(r3.out =~= Seq::<LogItemView>::empty());
    let r2 = run_steps(st1, seq![b.t_start, b.t_end]);
    assert(seq![b.t_start, b.t_end][0] == b.t_start);
    assert(r2.fault is None && r2.st == st3);
    assert(r2.out =~= Seq::<LogItemView>::empty());
    let r = run_steps(st, lines);
    assert(r.fault is None && r.st == st3);
    assert(st3.rec =~= block_rec(b, st.rec.date));
    if st.started {
        assert(r.out =~= seq![st.rec]);
    } else {
        assert(r.out =~= Seq::<LogItemView>::empty());
    }
}

/// Running any number of well-formed blocks never faults: each block's
/// header flushes the previous block's record, in file order, and the last
/// block's record stays open.
pub proof fn lemma_blocks_run(st: AccView, bs: Seq<TaskBlock>)
    requires
        forall|k: int| 0 <= k < bs.len() ==> block_wf(#[trigger] bs[k]),
        st.started ==> rec_complete(st.rec),
        !st.started ==> st.rec.start.len() == 0 && st.rec.end.len() == 0 && st.rec.review.len()
            == 0,
    ensures
        ({
            let r = run_steps(st, blocks_lines(bs));
            &&& r.fault is None
            &&& r.st == (if bs.len() == 0 {
                st
            } else {
                AccView { rec: block_rec(bs.last(), st.rec.date), started: true }
            })
            &&& r.out == (if bs.len() == 0 {
                Seq::<LogItemView>::empty()
            } else {
                (if st.started {
                    seq![st.rec]
                } else {
                    Seq::<LogItemView>::empty()
                }) + block_recs(bs.drop_last(), st.rec.date)
            })
        }),
    decreases bs.len(),
{
    if bs.len() == 0 {
    } else {
        let b0 = bs[0];
        let rest = bs.drop_first();
        assert(block_wf(b0));
        assert(forall|k: int| 0 <= k < rest.len() ==> block_wf(#[trigger] rest[k])) by {
            assert forall|k: int| 0 <= k < rest.len() implies block_wf(#[trigger] rest[k]) by {
                assert(rest[k] == bs[k + 1]);
            }
        }
        lemma_block_run(st, b0);
        lemma_run_steps_append(st, block_lines(b0), blocks_lines(rest));
        let st0 = AccView { rec: block_rec(b0, st.rec.date), started: true };
        assert(rec_complete(st0.rec));
        lemma_blocks_run(st0, rest);
        let flush0 = if st.started {
            seq![st.rec]
        } else {
            Seq::<LogItemView>::empty()
        };
        let r = run_steps(st, blocks_lines(bs));
        let r2 = run_steps(st0, blocks_lines(rest));
        if rest.len() == 0 {
            assert(bs.drop_last() =~= Seq::<TaskBlock>::empty());
            assert(bs.last() == b0);
            assert(r.out =~= flush0 + block_recs(bs.drop_last(), st.rec.date));
        } else {
            assert(bs.last() == rest.last());
            assert(st0.rec.date == st.rec.date);
            assert(bs.drop_last() =~= seq![b0] + rest.drop_last());
            assert(block_recs(bs.drop_last(), st.rec.date) =~= seq![
                block_rec(b0, st.rec.date),
            ] + block_recs(rest.drop_last(), st.rec.date));
            assert(r.out =~= flush0 + block_recs(bs.drop_last(), st.rec.date));
        }
    }
}

/// A file of well-formed blocks — each header followed by exactly its start
/// and end times — produces exactly one record per block, in file order,
/// each with its block's fields; the last one arrives through the final
/// unconditional flush.
pub proof fn lemma_blocks_ingest(bs: Seq<TaskBlock>, date: Seq<char>)
    requires
        forall|k: int| 0 <= k < bs.len() ==> block_wf(#[trigger] bs[k]),
    ensures
        ingest_spec(blocks_lines(bs), date) == Ok::<_, Seq<char>>(block_recs(bs, date)),
{
    lemma_blocks_run(init_acc(date), bs);
    let r = run_steps(init_acc(date), blocks_lines(bs));
    if bs.len() == 0 {
        assert(block_recs(bs, date) =~= Seq::<LogItemView>::empty());
    } else {
        assert(r.out.push(r.st.rec) =~= block_recs(bs, date));
    }
}

/// A file whose last task has only a start time still yields a record for
/// it: the final unconditional flush emits the open record, its `end` left
/// empty.
pub proof fn lemma_last_task_without_end(
    bs: Seq<TaskBlock>,
    h: Seq<char>,
    t1: Seq<char>,
    date: Seq<char>,
)
    requires
        forall|k: int| 0 <= k < bs.len() ==> block_wf(#[trigger] bs[k]),
        has_header_prefix(h),
        header_estimate_ok(h),
        has_subfield_prefix(t1),
        is_time_like(subfield_value(t1)),
        subfield_value(t1).len() > 0,
    ensures
        ingest_spec(blocks_lines(bs) + seq![h, t1], date) == Ok::<_, Seq<char>>(
            block_recs(bs, date).push(
                LogItemView {
                    name: header_name(h),
                    notes: header_notes(h),
                    project: header_project(h),
                    estimate: header_estimate(h),
                    date: date,
                    start: subfield_value(t1),
                    end: Seq::empty(),
                    review: Seq::empty(),
                },
            ),
        ),
{
    lemma_blocks_run(init_acc(date), bs);
    lemma_run_steps_append(init_acc(date), blocks_lines(bs), seq![h, t1]);
    let rb = run_steps(init_acc(date), blocks_lines(bs));
    let st_b = rb.st;
    assert(st_b.rec.date == date);
    let s1 = step_spec(st_b, h);
    let st1 = s1.st;
    assert(st1.rec.start.len() == 0);
    assert(!has_header_prefix(t1));
    let s2 = step_spec(st1, t1);
    let st2 = s2.st;
    let lines2 = seq![h, t1];
    assert(lines2[0] == h);
    assert(lines2.drop_first() =~= seq![t1]);
    assert(seq![t1][0] == t1);
    assert(seq![t1].drop_first() =~= Seq::<Seq<char>>::empty());
    let r3 = run_steps(st2, Seq::<Seq<char>>::empty());
    assert(r3.fault is None && r3.st == st2 && r3.out == Seq::<LogItemView>::empty());
    let r2 = run_steps(st1, seq![t1]);
    assert(r2.fault is None && r2.st == st2);
    assert(r2.out =~= Seq::<LogItemView>::empty());
    let rt = run_steps(st_b, lines2);
    assert(rt.fault is None && rt.st == st2);
    let open_rec = LogItemView {
        name: header_name(h),
        notes: header_notes(h),
        project: header_project(h),
        estimate: header_estimate(h),
        date: date,
        start: subfield_value(t1),
        end: Seq::empty(),
        review: Seq::empty(),
    };
    assert(st2.rec =~= open_rec);
    let r = run_steps(init_acc(date), blocks_lines(bs) + lines2);
    assert(r.fault is None && r.st == st2);
    if bs.len() == 0 {
        assert(rt.out =~= Seq::<LogItemView>::empty());
        assert(r.out =~= Seq::<LogItemView>::empty());
        assert(block_recs(bs, date) =~= Seq::<LogItemView>::empty());
        assert(r.out.push(st2.rec) =~= block_recs(bs, date).push(open_rec));
    } else {
        assert(s1.flushed == Some(st_b.rec));
        assert(rt.out =~= seq![block_rec(bs.last(), date)]);
        assert(bs =~= bs.drop_last().push(bs.last()));
        assert(block_recs(bs, date) =~= block_recs(bs.drop_last(), date).push(
            block_rec(bs.last(), date),
        ));
        assert(r.out =~= block_recs(bs, date));
        assert(r.out.push(st2.rec) =~= block_recs(bs, date).push(open_rec));
    }
}

/// A header whose estimate does not parse aborts the whole run with the
/// offending task name, whatever lines follow it; a run that was clean up to
/// that header gets no further.
pub proof fn lemma_malformed_estimate_aborts(
    prefix: Seq<Seq<char>>,
    bad: Seq<char>,
    rest: Seq<Seq<char>>,
    date: Seq<char>,
)
    requires
        run_steps(init_acc(date), prefix).fault is None,
        has_header_prefix(bad),
        !header_estimate_ok(bad),
    ensures
        ingest_spec(prefix + seq![bad] + rest, date) == Err::<Seq<LogItemView>, _>(
            header_name(bad),
        ),
{
    let tail = seq![bad] + rest;
    crate::ingest::lemma_run_steps_append(init_acc(date), prefix, tail);
    assert(prefix + seq![bad] + rest =~= prefix + tail);
    let stp = run_steps(init_acc(date), prefix).st;
    assert(tail[0] == bad);
    let sb = step_spec(stp, bad);
    assert(sb.fault == Some(header_name(bad)));
    assert(run_steps(stp, tail).fault == Some(header_name(bad)));
    assert(run_steps(init_acc(date), prefix + tail).fault == Some(header_name(bad)));
}

/// Rendering a task as a plan line and extracting the header fields gives
/// every field back, as long as the field texts stay clear of the delimiter
/// characters themselves and carry no surrounding whitespace.
#[verifier::rlimit(50)]
pub proof fn lemma_plan_line_round_trip(t: TaskView)
    requires
        !t.start.contains('('),
        !t.start.contains(')'),
        !t.start.contains('['),
        !t.start.contains(']'),
        !t.start.contains(FULL_COLON),
        !t.project.contains(']'),
        !t.project.contains(FULL_COLON),
        !t.name.contains(FULL_COLON),
        trim_spec(t.project) == t.project,
        trim_spec(t.name) == t.name,
        trim_spec(t.notes) == t.notes,
        i32::MIN <= t.estimate <= i32::MAX,
    ensures
        has_header_prefix(plan_line_spec(t)),
        header_project(plan_line_spec(t)) == t.project,
        header_name(plan_line_spec(t)) == t.name,
        header_notes(plan_line_spec(t)) == t.notes,
        header_estimate_ok(plan_line_spec(t)),
        header_estimate(plan_line_spec(t)) == t.estimate,
{
    let e = dec_rep(t.estimate);
    lemma_dec_rep_chars(t.estimate);
    let line = plan_line_spec(t);
    let a = seq!['-', ' '];
    let b = seq![' ', '('];
    let c = seq![')', ' ', '['];
    let d = seq![']', ' '];
    let f = seq![FULL_COLON, ' '];
    let g = seq!['\n'];
    let u1 = a + t.start;
    let u2 = u1 + b;
    let u3 = u2 + e;
    let u4 = u3 + c;
    let u5 = u4 + t.project;
    let u6 = u5 + d;
    let u7 = u6 + t.name;
    let u8 = u7 + f;
    let u9 = u8 + t.notes;
    assert(line =~= u9 + g);
    let n1 = u1.len() as int;
    let n2 = u2.len() as int;
    let n3 = u3.len() as int;
    let n4 = u4.len() as int;
    let n5 = u5.len() as int;
    let n6 = u6.len() as int;
    let n7 = u7.len() as int;
    let n8 = u8.len() as int;
    let n9 = u9.len() as int;
    // index bridges from the whole line down to each prefix
    assert forall|j: int| 0 <= j < n9 implies line[j] == u9[j] by {
        assert((u9 + g)[j] == u9[j]);
    }
    assert forall|j: int| 0 <= j < n8 implies line[j] == u8[j] by {
        assert(line[j] == u9[j]);
        assert((u8 + t.notes)[j] == u8[j]);
    }
    assert forall|j: int| 0 <= j < n7 implies line[j] == u7[j] by {
        assert(line[j] == u8[j]);
        assert((u7 + f)[j] == u7[j]);
    }
    assert forall|j: int| 0 <= j < n6 implies line[j] == u6[j] by {
        assert(line[j] == u7[j]);
        assert((u6 + t.name)[j] == u6[j]);
    }
    assert forall|j: int| 0 <= j < n5 implies line[j] == u5[j] by {
        assert(line[j] == u6[j]);
        assert((u5 + d)[j] == u5[j]);
    }
    assert forall|j: int| 0 <= j < n4 implies line[j] == u4[j] by {
        assert(line[j] == u5[j]);
        assert((u4 + t.project)[j] == u4[j]);
    }
    assert forall|j: int| 0 <= j < n3 implies line[j] == u3[j] by {
        assert(line[j] == u4[j]);
        assert((u3 + c)[j] == u3[j]);
    }
    assert forall|j: int| 0 <= j < n2 implies line[j] == u2[j] by {
        assert(line[j] == u3[j]);
        assert((u2 + e)[j] == u2[j]);
    }
    assert forall|j: int| 0 <= j < n1 implies line[j] == u1[j] by {
        assert(line[j] == u2[j]);
        assert((u1 + b)[j] == u1[j]);
    }
    // the characters each region carries
    assert(line[0] == '-' && line[1] == ' ') by {
        assert((a + t.start)[0] == a[0]);
        assert((a + t.start)[1] == a[1]);
    }
    assert forall|j: int| 2 <= j < n1 implies line[j] == t.start[j - 2] by {
        assert((a + t.start)[j] == t.start[j - 2]);
    }
    assert(line[n1] == ' ' && line[n1 + 1] == '(') by {
        assert((u1 + b)[n1] == b[0]);
        assert((u1 + b)[n1 + 1] == b[1]);
    }
    assert forall|j: int| n2 <= j < n3 implies line[j] == e[j - n2] by {
        assert((u2 + e)[j] == e[j - n2]);
    }
    assert(line[n3] == ')' && line[n3 + 1] == ' ' && line[n3 + 2] == '[') by {
        assert((u3 + c)[n3] == c[0]);
        assert((u3 + c)[n3 + 1] == c[1]);
        assert((u3 + c)[n3 + 2] == c[2]);
    }
    assert forall|j: int| n4 <= j < n5 implies line[j] == t.project[j - n4] by {
        assert((u4 + t.project)[j] == t.project[j - n4]);
    }
    assert(line[n5] == ']' && line[n5 + 1] == ' ') by {
        assert((u5 + d)[n5] == d[0]);
        assert((u5 + d)[n5 + 1] == d[1]);
    }
    assert forall|j: int| n6 <= j < n7 implies line[j] == t.name[j - n6] by {
        assert((u6 + t.name)[j] == t.name[j - n6]);
    }
    assert(line[n7] == FULL_COLON && line[n7 + 1] == ' ') by {
        assert(line[n7] == u8[n7]);
        assert(line[n7 + 1] == u8[n7 + 1]);
        assert((u7 + f)[n7] == f[0]);
        assert((u7 + f)[n7 + 1] == f[1]);
    }
    assert forall|j: int| n8 <= j < n9 implies line[j] == t.notes[j - n8] by {
        assert((u8 + t.notes)[j] == t.notes[j - n8]);
    }
    assert(line[n9] == '\n') by {
        assert((u9 + g)[n9] == g[0]);
    }
    assert(line.len() == n9 + 1);
    // absence of the delimiters, pointwise, in the pieces that come ahead of
    // each delimiter's own position
    assert forall|j: int|
        0 <= j < t.start.len() implies #[trigger] t.start[j] != '(' && t.start[j] != ')'
        && t.start[j] != '[' && t.start[j] != ']' && t.start[j] != FULL_COLON by {
        if t.start[j] == '(' {
            assert(t.start.contains('('));
        }
        if t.start[j] == ')' {
            assert(t.start.contains(')'));
        }
        if t.start[j] == '[' {
            assert(t.start.contains('['));
        }
        if t.start[j] == ']' {
            assert(t.start.contains(']'));
        }
        if t.start[j] == FULL_COLON {
            assert(t.start.contains(FULL_COLON));
        }
    }
    assert forall|j: int|
        0 <= j < t.project.len() implies #[trigger] t.project[j] != ']' && t.project[j]
        != FULL_COLON by {
        if t.project[j] == ']' {
            assert(t.project.contains(']'));
        }
        if t.project[j] == FULL_COLON {
            assert(t.project.contains(FULL_COLON));
        }
    }
    assert forall|j: int| 0 <= j < t.name.len() implies #[trigger] t.name[j] != FULL_COLON by {
        if t.name[j] == FULL_COLON {
            assert(t.name.contains(FULL_COLON));
        }
    }
    assert forall|j: int|
        0 <= j < e.len() implies #[trigger] e[j] != '(' && e[j] != ')' && e[j] != '[' && e[j]
        != ']' && e[j] != FULL_COLON && !is_space_char(e[j]) by {
        assert(e[j] == dec_rep(t.estimate)[j]);
        assert(is_digit_char(dec_rep(t.estimate)[j]) || dec_rep(t.estimate)[j] == '-');
    }
    // the first occurrence of each delimiter
    let p_op = n1 + 1;
    assert forall|j: int| 0 <= j < p_op implies line[j] != '(' by {
        if 2 <= j < n1 {
            assert(line[j] == t.start[j - 2]);
        }
    }
    lemma_find_char_at(line, '(', p_op);
    assert forall|j: int| 0 <= j < n3 implies line[j] != ')' by {
        if 2 <= j < n1 {
            assert(line[j] == t.start[j - 2]);
        }
        if n2 <= j < n3 {
            assert(line[j] == e[j - n2]);
        }
    }
    lemma_find_char_at(line, ')', n3);
    assert forall|j: int| 0 <= j < n3 + 2 implies line[j] != '[' by {
        if 2 <= j < n1 {
            assert(line[j] == t.start[j - 2]);
        }
        if n2 <= j < n3 {
            assert(line[j] == e[j - n2]);
        }
    }
    lemma_find_char_at(line, '[', n3 + 2);
    assert forall|j: int| 0 <= j < n5 implies line[j] != ']' by {
        if 2 <= j < n1 {
            assert(line[j] == t.start[j - 2]);
        }
        if n2 <= j < n3 {
            assert(line[j] == e[j - n2]);
        }
        if n4 <= j < n5 {
            assert(line[j] == t.project[j - n4]);
        }
    }
    lemma_find_char_at(line, ']', n5);
    assert forall|j: int| 0 <= j < n7 implies line[j] != FULL_COLON by {
        if 2 <= j < n1 {
            assert(line[j] == t.start[j - 2]);
        }
        if n2 <= j < n3 {
            assert(line[j] == e[j - n2]);
        }
        if n4 <= j < n5 {
            assert(line[j] == t.project[j - n4]);
        }
        if n6 <= j < n7 {
            assert(line[j] == t.name[j - n6]);
        }
    }
    lemma_find_char_at(line, FULL_COLON, n7);
    // the estimate text is exactly the rendered number, which parses back
    let est_sub = line.subrange(p_op + 1, n3);
    assert forall|k: int| 0 <= k < e.len() implies est_sub[k] == e[k] by {
        assert(est_sub[k] == line[n2 + k]);
        assert(line[n2 + k] == e[k]);
    }
    assert(est_sub =~= e);
    assert(!is_space_char(e[0]) && !is_space_char(e[e.len() - 1]));
    lemma_trim_id(e);
    assert(header_estimate_text(line) == e);
    lemma_parse_dec_rep(t.estimate);
    // the project text is exactly the project tag
    let proj_sub = line.subrange(n3 + 3, n5);
    assert forall|k: int| 0 <= k < t.project.len() implies proj_sub[k] == t.project[k] by {
        assert(proj_sub[k] == line[n4 + k]);
        assert(line[n4 + k] == t.project[k]);
    }
    assert(proj_sub =~= t.project);
    assert(header_project(line) == t.project);
    // the name text carries one leading space from the template
    let name_sub = line.subrange(n5 + 1, n7);
    assert forall|k: int| 0 <= k < name_sub.len() implies name_sub[k] == (seq![' ']
        + t.name)[k] by {
        assert(name_sub[k] == line[n5 + 1 + k]);
        if k > 0 {
            assert(line[n6 + (k - 1)] == t.name[k - 1]);
        }
    }
    assert(name_sub =~= seq![' '] + t.name);
    lemma_trim_space_around(t.name, seq![' '], Seq::<char>::empty());
    assert(seq![' '] + t.name + Seq::<char>::empty() =~= seq![' '] + t.name);
    assert(header_name(line) == t.name);
    // the notes text carries one leading space and the closing newline
    let notes_sub = line.subrange(n7 + 1, line.len() as int);
    assert forall|k: int| 0 <= k < notes_sub.len() implies notes_sub[k] == (seq![' '] + t.notes
        + seq!['\n'])[k] by {
        assert(notes_sub[k] == line[n7 + 1 + k]);
        if 0 < k < 1 + t.notes.len() {
            assert(line[n8 + (k - 1)] == t.notes[k - 1]);
        }
        if k == 1 + t.notes.len() {
            assert(line[n9] == '\n');
        }
    }
    assert(notes_sub =~= seq![' '] + t.notes + seq!['\n']);
    lemma_trim_space_around(t.notes, seq![' '], seq!['\n']);
    assert(header_notes(line) == t.notes);
}

} // verus!
