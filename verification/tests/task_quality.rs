use claude_pilot::artifacts::PlannedTask;
use claude_pilot::planning::TaskDecompositionConfig;
use claude_pilot::task_quality::{TaskQualityFindings, TaskQualityIssue, TaskQualityValidator};

fn build_task(id: &str, affected: &[&str], deps: &[&str]) -> PlannedTask {
    PlannedTask {
        id: id.to_string(),
        description: format!("Implement {}", id),
        user_story: None,
        parallel: false,
        dependencies: deps.iter().map(|s| s.to_string()).collect(),
        affected_files: affected.iter().map(|s| s.to_string()).collect(),
        test_patterns: Vec::new(),
    }
}

fn passed(f: &TaskQualityFindings, threshold: f32) -> bool {
    let avg = f.scores.iter().map(|s| *s as f32 / 10.0).sum::<f32>() / f.scores.len().max(1) as f32;
    avg >= threshold && f.issues.is_empty()
}

fn no_dirs() -> Vec<String> {
    Vec::new()
}

#[test]
fn valid_tasks() {
    let config = TaskDecompositionConfig::default();
    let validator = TaskQualityValidator::new(&config);
    let tasks = vec![
        build_task("T001", &["src/foo.rs"], &[]),
        build_task("T002", &["src/bar.rs"], &["T001"]),
        build_task("T003", &["src/baz.rs"], &["T001"]),
    ];
    let result = validator.validate(&tasks, &[], &no_dirs());
    assert!(passed(&result, 0.7));
    assert!(result.issues.is_empty());
}

#[test]
fn empty_affected_files() {
    let config = TaskDecompositionConfig::default();
    let validator = TaskQualityValidator::new(&config);
    let tasks = vec![build_task("T001", &[], &[]), build_task("T002", &["src/bar.rs"], &["T001"])];
    let result = validator.validate(&tasks, &[], &no_dirs());
    assert!(!passed(&result, 0.7));
    assert!(result.issues.iter().any(|i| matches!(i, TaskQualityIssue::EmptyAffectedFiles { .. })));
}

#[test]
fn duplicate_task_id() {
    let config = TaskDecompositionConfig { require_affected_files: false, ..Default::default() };
    let validator = TaskQualityValidator::new(&config);
    let tasks = vec![build_task("T001", &[], &[]), build_task("T001", &[], &[])];
    let result = validator.validate(&tasks, &[], &no_dirs());
    assert!(!passed(&result, 0.7));
    assert!(result.issues.iter().any(|i| matches!(i, TaskQualityIssue::DuplicateTaskId { .. })));
}

#[test]
fn circular_dependency() {
    let config = TaskDecompositionConfig { require_affected_files: false, ..Default::default() };
    let validator = TaskQualityValidator::new(&config);
    let tasks = vec![
        build_task("T001", &[], &["T003"]),
        build_task("T002", &[], &["T001"]),
        build_task("T003", &[], &["T002"]),
    ];
    let result = validator.validate(&tasks, &[], &no_dirs());
    assert!(!passed(&result, 0.7));
    assert!(result.issues.iter().any(|i| matches!(i, TaskQualityIssue::CircularDependency { .. })));
}

#[test]
fn missing_story_coverage() {
    let config = TaskDecompositionConfig { require_affected_files: false, ..Default::default() };
    let validator = TaskQualityValidator::new(&config);
    let mut task = build_task("T001", &[], &[]);
    task.user_story = Some("us_001".to_string());
    let tasks = vec![task];
    let story_ids = vec!["us_001".to_string(), "us_002".to_string()];
    let result = validator.validate(&tasks, &story_ids, &no_dirs());
    assert!(!passed(&result, 0.7));
    assert!(result
        .issues
        .iter()
        .any(|i| matches!(i, TaskQualityIssue::MissingStoryCoverage { story_id } if story_id == "us_002")));
}

#[test]
fn directory_path_with_trailing_slash() {
    let config = TaskDecompositionConfig::default();
    let validator = TaskQualityValidator::new(&config);
    let tasks = vec![build_task("T001", &["src/"], &[])];
    let result = validator.validate(&tasks, &[], &no_dirs());
    assert!(!passed(&result, 0.7));
    assert!(result.issues.iter().any(|i| matches!(
        i,
        TaskQualityIssue::InvalidDirectoryPath { task_id, path } if task_id == "T001" && path == "src/"
    )));
}

#[test]
fn directory_detection_with_working_dir() {
    let config = TaskDecompositionConfig::default();
    let validator = TaskQualityValidator::new(&config).with_working_dir("/work");
    let tasks = vec![build_task("T001", &["src"], &[])];
    let dirs = vec!["src".to_string()];
    let result = validator.validate(&tasks, &[], &dirs);
    assert!(!passed(&result, 0.7));
    assert!(result
        .issues
        .iter()
        .any(|i| matches!(i, TaskQualityIssue::InvalidDirectoryPath { task_id, .. } if task_id == "T001")));
    let without_dir = TaskQualityValidator::new(&config);
    let result = without_dir.validate(&tasks, &[], &dirs);
    assert!(!result.issues.iter().any(|i| matches!(i, TaskQualityIssue::InvalidDirectoryPath { .. })));
}

#[test]
fn valid_file_paths_pass() {
    let config = TaskDecompositionConfig { min_tasks_per_story: 1, ..Default::default() };
    let validator = TaskQualityValidator::new(&config).with_working_dir("/work");
    let tasks = vec![build_task("T001", &["src/main.rs", "src/lib.rs"], &[])];
    let result = validator.validate(&tasks, &[], &no_dirs());
    assert!(passed(&result, 0.7), "Unexpected issues: {:?}", result.issues);
    assert!(result.issues.is_empty());
}

#[test]
fn scores_and_messages() {
    let config = TaskDecompositionConfig { require_affected_files: false, ..Default::default() };
    let validator = TaskQualityValidator::new(&config);
    let mut t = build_task("T1", &[], &["T9"]);
    t.description = "  ok \n".to_string();
    let result = validator.validate(&[t], &[], &no_dirs());
    assert_eq!(result.scores, vec![5, 4, 2]);
    let texts: Vec<String> = result.issues.iter().map(|i| i.to_text()).collect();
    assert_eq!(
        texts,
        vec![
            "Story 'overall' has 1 tasks (minimum: 2)".to_string(),
            "Task 'T1' has vague description: '  ok \n'".to_string(),
            "Task 'T1' depends on non-existent task 'T9'".to_string(),
        ]
    );
    assert_eq!(result.issues[0].suggested_fix(), "Add more granular tasks to cover the story scope");
}

#[test]
fn too_many_tasks_and_cycle_text() {
    let config = TaskDecompositionConfig { min_tasks_per_story: 0, max_tasks_per_story: 1, require_affected_files: false, max_retry_attempts: 1 };
    let validator = TaskQualityValidator::new(&config);
    let tasks = vec![build_task("A", &[], &["B"]), build_task("B", &[], &["A"])];
    let result = validator.validate(&tasks, &[], &no_dirs());
    assert!(matches!(result.issues[0], TaskQualityIssue::TooManyTasks { count: 2, max: 1, .. }));
    let cycle = result.issues.iter().find(|i| matches!(i, TaskQualityIssue::CircularDependency { .. })).unwrap();
    assert!(cycle.to_text().starts_with("Circular dependency detected: [\""));
    let issue = TaskQualityIssue::CircularDependency { task_ids: vec!["A".to_string(), "B\"".to_string()] };
    assert_eq!(issue.to_text(), "Circular dependency detected: [\"A\", \"B\\\"\"]");
}
