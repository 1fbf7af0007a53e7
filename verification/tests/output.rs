use claude_pilot::domain::{IsolationMode, OutputFormat};
use claude_pilot::mission::{Learning, LearningCategory, Mission, MissionState, Task, TaskResult, TaskStatus};
use claude_pilot::output::{Emission, ListEmission, MissionOutput, MissionStateOutput, OutputWriter};

fn mission() -> Mission {
    let mut t1 = Task::new("T1", "Write parser");
    t1.status = TaskStatus::Completed;
    t1.result = Some(TaskResult { files_created: vec!["src/p.rs".to_string()], files_modified: vec!["src/lib.rs".to_string()] });
    let mut t2 = Task::new("T2", "Wire it up");
    t2.status = TaskStatus::InProgress;
    let t3 = Task::new("T3", "Docs");
    Mission {
        id: "m-1".to_string(),
        description: "Add a parser for config files".to_string(),
        status: MissionState::Running,
        isolation: IsolationMode::Branch,
        branch: Some("pilot/m-1".to_string()),
        tasks: vec![t1, t2, t3],
        phases: vec![],
        learnings: vec![Learning { category: LearningCategory::Gotcha, content: "Mind the BOM".to_string() }],
    }
}

#[test]
fn progress_counts_completed_tasks() {
    let p = mission().progress();
    assert_eq!((p.completed, p.total, p.percentage), (1, 3, 33));
    let empty = Mission { tasks: vec![], ..mission() };
    assert_eq!(empty.progress().percentage, 0);
}

#[test]
fn mission_output_collects_files_and_learnings() {
    let out = MissionOutput::from_mission(&mission(), true);
    assert_eq!(out.mission_id, "m-1");
    assert_eq!(out.summary, "Add a parser for config files");
    assert_eq!(out.files_changed, vec!["src/p.rs".to_string(), "src/lib.rs".to_string()]);
    assert_eq!(out.learnings.len(), 1);
    assert_eq!(out.learnings[0].category, "gotcha");
    assert_eq!(out.learnings[0].content, "Mind the BOM");
}

#[test]
fn text_result_report() {
    let w = OutputWriter::new(OutputFormat::Text);
    assert_eq!(w.format(), OutputFormat::Text);
    let out = MissionOutput::from_mission(&mission(), false);
    match w.emit_result(&out) {
        Emission::Text(t) => assert_eq!(
            t,
            "\nMission m-1 failed.\n\nSummary: Add a parser for config files\n\nFiles changed (2):\n  src/p.rs\n  src/lib.rs\n\nLearnings (1):\n  - Mind the BOM\n"
        ),
        Emission::Json(_) => panic!("text expected"),
    }
    let json = OutputWriter::new(OutputFormat::Json);
    assert!(matches!(json.emit_result(&out), Emission::Json(())));
}

#[test]
fn text_status_report() {
    let w = OutputWriter::new(OutputFormat::Text);
    let expected = format!(
        "\nMission: m-1\n{}\n\nDescription: Add a parser for config files\nStatus: running\nIsolation: branch\nBranch: pilot/m-1\n\nProgress: 33% (1/3)\n\nTasks:\n  [x] T1 - Write parser\n  [>] T2 - Wire it up\n  [ ] T3 - Docs\n",
        "=".repeat(60)
    );
    match w.emit_status(&mission()) {
        Emission::Text(t) => assert_eq!(t, expected),
        Emission::Json(_) => panic!("text expected"),
    }
}

#[test]
fn json_status_record() {
    let w = OutputWriter::new(OutputFormat::Stream);
    match w.emit_status(&mission()) {
        Emission::Json(s) => {
            let s: MissionStateOutput = s;
            assert_eq!(s.status, "running");
            assert_eq!(s.isolation, "branch");
            assert_eq!(s.progress.percentage, 33);
            assert_eq!(s.tasks[1].status, "in_progress");
        },
        Emission::Text(_) => panic!("json expected"),
    }
}

#[test]
fn text_list_report() {
    let w = OutputWriter::new(OutputFormat::Text);
    match w.emit_list(&[]) {
        ListEmission::Text(t) => assert_eq!(t, "No missions found.\n"),
        _ => panic!(),
    }
    let expected = format!(
        "\n{:<10} {:<40} {:<12} {:>10}\n{}\n{:<10} {:<40} {:<12} {:>10}\n",
        "ID",
        "Description",
        "Status",
        "Progress",
        "-".repeat(75),
        "m-1",
        "Add a parser for config files",
        "running",
        "33%"
    );
    match w.emit_list(&[mission()]) {
        ListEmission::Text(t) => assert_eq!(t, expected),
        _ => panic!(),
    }
    let json = OutputWriter::new(OutputFormat::Json);
    match json.emit_list(&[mission(), mission()]) {
        ListEmission::Array(v) => assert_eq!(v.len(), 2),
        _ => panic!(),
    }
}

#[test]
fn stream_list_is_one_record_per_mission() {
    let stream = OutputWriter::new(OutputFormat::Stream);
    match stream.emit_list(&[mission(), mission(), mission()]) {
        ListEmission::Lines(v) => {
            assert_eq!(v.len(), 3);
            assert_eq!(v[0].id, "m-1");
        }
        _ => panic!("one record per line expected"),
    }
}

#[test]
fn message_emission() {
    match OutputWriter::new(OutputFormat::Text).emit_message("hi") {
        Emission::Text(t) => assert_eq!(t, "hi\n"),
        _ => panic!(),
    }
    match OutputWriter::new(OutputFormat::Json).emit_message("hi") {
        Emission::Json(m) => assert_eq!(m.message, "hi"),
        _ => panic!(),
    }
}
