use tasklog::ingest::ingest_lines;
use tasklog::record::vector_to_daily_plan;
use tasklog::record::LogItem;
use tasklog::record::Task;

fn sample_task(name: &str, project: &str, notes: &str, start: &str, estimate: i32) -> Task {
    Task {
        id: 0,
        status: "ACTIVE".to_string(),
        name: name.to_string(),
        notes: notes.to_string(),
        project: project.to_string(),
        start: start.to_string(),
        estimate,
        repeat: String::new(),
        next: String::new(),
    }
}

#[test]
fn default_log_item_is_empty() {
    let rec = LogItem::default();
    assert_eq!(rec.name, "");
    assert_eq!(rec.notes, "");
    assert_eq!(rec.project, "");
    assert_eq!(rec.date, "");
    assert_eq!(rec.start, "");
    assert_eq!(rec.end, "");
    assert_eq!(rec.estimate, 0);
    assert_eq!(rec.review, "");
}

#[test]
fn setters_replace_single_fields() {
    let mut rec = LogItem::default();
    rec.set_name("n".to_string());
    rec.set_notes("o".to_string());
    rec.set_project("p".to_string());
    rec.set_estimate(7);
    rec.set_start("09:00".to_string());
    rec.set_end("10:00".to_string());
    rec.set_review("r".to_string());
    assert_eq!(rec.name, "n");
    assert_eq!(rec.notes, "o");
    assert_eq!(rec.project, "p");
    assert_eq!(rec.estimate, 7);
    assert_eq!(rec.start, "09:00");
    assert_eq!(rec.end, "10:00");
    assert_eq!(rec.review, "r");
}

#[test]
fn plan_line_renders_template() {
    let t = sample_task("Task", "proj", "notes", "09:00", 30);
    assert_eq!(t.plan_line(), "- 09:00 (30) [proj] Task\u{FF1A} notes\n");
}

#[test]
fn plan_line_negative_estimate() {
    let t = sample_task("T", "p", "n", "08:15", -5);
    assert_eq!(t.plan_line(), "- 08:15 (-5) [p] T\u{FF1A} n\n");
}

#[test]
fn plan_line_round_trips_through_ingestion() {
    let t = sample_task("Some task", "aproj", "a few notes", "07:45", 120);
    let line = t.plan_line();
    let lines = vec![line.trim_end().to_string(), "  - 07:45".to_string(), "  - 09:45".to_string()];
    let recs = ingest_lines(&lines, "2020-06-01".to_string()).unwrap();
    assert_eq!(recs.len(), 1);
    assert_eq!(recs[0].name, "Some task");
    assert_eq!(recs[0].project, "aproj");
    assert_eq!(recs[0].notes, "a few notes");
    assert_eq!(recs[0].estimate, 120);
    assert_eq!(recs[0].start, "07:45");
    assert_eq!(recs[0].end, "09:45");
}

#[test]
fn daily_plan_concatenates_lines() {
    let a = sample_task("A", "p1", "na", "08:00", 10);
    let b = sample_task("B", "p2", "nb", "09:00", 20);
    let plan = vector_to_daily_plan(&vec![a, b]);
    assert_eq!(
        plan,
        "- 08:00 (10) [p1] A\u{FF1A} na\n- 09:00 (20) [p2] B\u{FF1A} nb\n"
    );
}

#[test]
fn empty_task_vector_empty_plan() {
    let plan = vector_to_daily_plan(&Vec::new());
    assert_eq!(plan, "");
}
