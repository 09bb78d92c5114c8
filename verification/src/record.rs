//! The data the planner works with: tasks as the task table holds them,
//! stored log rows, and the work-log record that ingestion builds.

use vstd::prelude::*;

use crate::num::dec_rep;
use crate::num::i32_to_dec_string;
use crate::text::FULL_COLON;

verus! {

/// The ghost image of a work-log record: each text field as its character
/// sequence, the estimate as an unbounded integer.
#[verifier::ext_equal]
pub struct LogItemView {
    pub name: Seq<char>,
    pub notes: Seq<char>,
    pub project: Seq<char>,
    pub date: Seq<char>,
    pub start: Seq<char>,
    pub end: Seq<char>,
    pub estimate: int,
    pub review: Seq<char>,
}

/// The unit persisted per work session: one task's log entry for one day.
#[derive(Debug)]
pub struct LogItem {
    pub name: String,
    pub notes: String,
    pub project: String,
    pub date: String,
    pub start: String,
    pub end: String,
    pub estimate: i32,
    pub review: String,
}

impl View for LogItem {
    type V = LogItemView;

    open spec fn view(&self) -> LogItemView {
        LogItemView {
            name: self.name@,
            notes: self.notes@,
            project: self.project@,
            date: self.date@,
            start: self.start@,
            end: self.end@,
            estimate: self.estimate as int,
            review: self.review@,
        }
    }
}

impl DeepView for LogItem {
    type V = LogItemView;

    open spec fn deep_view(&self) -> LogItemView {
        self.view()
    }
}

/// A record every text field of which is empty, with a zero estimate and the
/// given date.
pub open spec fn empty_rec(date: Seq<char>) -> LogItemView {
    LogItemView {
        name: Seq::empty(),
        notes: Seq::empty(),
        project: Seq::empty(),
        date: date,
        start: Seq::empty(),
        end: Seq::empty(),
        estimate: 0,
        review: Seq::empty(),
    }
}

impl Default for LogItem {
    fn default() -> (r: LogItem)
        ensures
            r@ == empty_rec(Seq::<char>::empty()),
    {
        LogItem {
            name: String::new(),
            notes: String::new(),
            project: String::new(),
            date: String::new(),
            start: String::new(),
            end: String::new(),
            estimate: 0,
            review: String::new(),
        }
    }
}

impl Clone for LogItem {
    /// A clone carries exactly the same field values.
    fn clone(&self) -> (r: Self)
        ensures
            r@ == self@,
    {
        LogItem {
            name: self.name.clone(),
            notes: self.notes.clone(),
            project: self.project.clone(),
            date: self.date.clone(),
            start: self.start.clone(),
            end: self.end.clone(),
            estimate: self.estimate,
            review: self.review.clone(),
        }
    }
}

impl LogItem {
    pub fn set_name(&mut self, name: String)
        ensures
            (final(self)@ == LogItemView { name: name@, ..old(self)@ }),
    {
        self.name = name;
    }

    pub fn set_notes(&mut self, notes: String)
        ensures
            (final(self)@ == LogItemView { notes: notes@, ..old(self)@ }),
    {
        self.notes = notes;
    }

    pub fn set_project(&mut self, project: String)
        ensures
            (final(self)@ == LogItemView { project: project@, ..old(self)@ }),
    {
        self.project = project;
    }

    pub fn set_estimate(&mut self, estimate: i32)
        ensures
            (final(self)@ == LogItemView { estimate: estimate as int, ..old(self)@ }),
    {
        self.estimate = estimate;
    }

    pub fn set_start(&mut self, start: String)
        ensures
            (final(self)@ == LogItemView { start: start@, ..old(self)@ }),
    {
        self.start = start;
    }

    pub fn set_end(&mut self, end: String)
        ensures
            (final(self)@ == LogItemView { end: end@, ..old(self)@ }),
    {
        self.end = end;
    }

    pub fn set_review(&mut self, review: String)
        ensures
            (final(self)@ == LogItemView { review: review@, ..old(self)@ }),
    {
        self.review = review;
    }
}

impl DeepView for Task {
    type V = TaskView;

    open spec fn deep_view(&self) -> TaskView {
        self.view()
    }
}

/// The ghost image of a stored task.
pub struct TaskView {
    pub id: int,
    pub status: Seq<char>,
    pub name: Seq<char>,
    pub notes: Seq<char>,
    pub project: Seq<char>,
    pub start: Seq<char>,
    pub estimate: int,
    pub repeat: Seq<char>,
    pub next: Seq<char>,
}

/// A task as the planner's task table holds it.
#[derive(Debug)]
pub struct Task {
    pub id: i32,
    pub status: String,
    pub name: String,
    pub notes: String,
    pub project: String,
    pub start: String,
    pub estimate: i32,
    pub repeat: String,
    pub next: String,
}

impl View for Task {
    type V = TaskView;

    open spec fn view(&self) -> TaskView {
        TaskView {
            id: self.id as int,
            status: self.status@,
            name: self.name@,
            notes: self.notes@,
            project: self.project@,
            start: self.start@,
            estimate: self.estimate as int,
            repeat: self.repeat@,
            next: self.next@,
        }
    }
}

impl Clone for Task {
    /// A clone carries exactly the same field values.
    fn clone(&self) -> (r: Self)
        ensures
            r@ == self@,
    {
        Task {
            id: self.id,
            status: self.status.clone(),
            name: self.name.clone(),
            notes: self.notes.clone(),
            project: self.project.clone(),
            start: self.start.clone(),
            estimate: self.estimate,
            repeat: self.repeat.clone(),
            next: self.next.clone(),
        }
    }
}

/// A stored log row, as the report queries read it back.
#[derive(Debug)]
pub struct Log {
    pub id: i32,
    pub name: String,
    pub notes: String,
    pub project: String,
    pub date: String,
    pub start: String,
    pub end: String,
    pub review: String,
}

/// The markdown plan line written for a task:
/// `- <start> (<estimate>) [<project>] <name>` followed by the full-width
/// colon, the notes, and a closing newline.
pub open spec fn plan_line_spec(t: TaskView) -> Seq<char> {
    seq!['-', ' '] + t.start + seq![' ', '('] + dec_rep(t.estimate) + seq![')', ' ', '[']
        + t.project + seq![']', ' '] + t.name + seq![FULL_COLON, ' '] + t.notes + seq!['\n']
}

impl Task {
    /// The task, formatted for the day plan.
    pub fn plan_line(&self) -> (r: String)
        ensures
            r@ == plan_line_spec(self@),
    {
        let mut out = String::from_str("- ");
        out.append(self.start.as_str());
        out.append(" (");
        let est = i32_to_dec_string(self.estimate);
        out.append(est.as_str());
        out.append(") [");
        out.append(self.project.as_str());
        out.append("] ");
        out.append(self.name.as_str());
        out.append("\u{FF1A} ");
        out.append(self.notes.as_str());
        out.append("\n");
        proof {
            reveal_strlit("- ");
            reveal_strlit(" (");
            reveal_strlit(") [");
            reveal_strlit("] ");
            reveal_strlit("\u{FF1A} ");
            reveal_strlit("\n");
            assert(out@ =~= plan_line_spec(self@));
        }
        out
    }
}

/// The concatenation of the plan lines of a sequence of tasks, in order.
pub open spec fn plan_of(tasks: Seq<TaskView>) -> Seq<char>
    decreases tasks.len(),
{
    if tasks.len() == 0 {
        Seq::empty()
    } else {
        plan_of(tasks.drop_last()) + plan_line_spec(tasks.last())
    }
}

/// Render a whole day's plan: every task's plan line, in order.
pub fn vector_to_daily_plan(tasks: &Vec<Task>) -> (r: String)
    ensures
        r@ == plan_of(tasks.deep_view()),
{
    let mut out = String::new();
    let n = tasks.len();
    let mut i: usize = 0;
    while i < n
        invariant
            n == tasks.len(),
            0 <= i <= n,
            out@ == plan_of(tasks.deep_view().take(i as int)),
        decreases n - i,
    {
        let line = tasks[i].plan_line();
        out.append(line.as_str());
        proof {
            let tv = tasks.deep_view();
            assert(tv.take(i + 1).drop_last() =~= tv.take(i as int));
            assert(tv.take(i + 1).last() == tv[i as int]);
        }
        i = i + 1;
    }
    proof {
        assert(tasks.deep_view().take(n as int) =~= tasks.deep_view());
    }
    out
}

} // verus!
