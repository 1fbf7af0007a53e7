use claude_pilot::agent::{AgentConfig, ModelConfig};
use claude_pilot::artifacts::{PlannedTask, SpecArtifact, TaskPhase, TasksArtifact, UserStory};
use claude_pilot::domain::{IssueSeverity, Priority};
use claude_pilot::validation::{
    categorize_lowered, collect_issues_from, path_has_evidence_backing, CheckDetail, PlanValidator, QualityTier,
    RevisionCategory, RevisionFeedback, ValidationCheckResult, ValidationIssue,
};

fn config() -> AgentConfig {
    AgentConfig {
        timeout_secs: 600,
        planning_timeout_secs: 0,
        max_sdk_iterations: 50,
        plugin_dirs: vec!["plugins".to_string()],
        planning_model: ModelConfig { model_id: "planner".to_string(), context_window: 200000, extended_context: false },
    }
}

fn validator() -> PlanValidator {
    PlanValidator::with_config("/work", &config()).expect("validator")
}

fn task(id: &str, deps: &[&str], story: Option<&str>, parallel: bool) -> PlannedTask {
    PlannedTask {
        id: id.to_string(),
        description: format!("Do {}", id),
        user_story: story.map(|s| s.to_string()),
        parallel,
        dependencies: deps.iter().map(|s| s.to_string()).collect(),
        affected_files: vec![],
        test_patterns: vec![],
    }
}

fn tasks(phases: Vec<(Vec<PlannedTask>, Option<&str>)>) -> TasksArtifact {
    TasksArtifact {
        phases: phases
            .into_iter()
            .enumerate()
            .map(|(i, (ts, cp))| TaskPhase {
                id: format!("P{}", i + 1),
                name: format!("Phase {}", i + 1),
                purpose: String::new(),
                tasks: ts,
                checkpoint: cp.map(|c| c.to_string()),
            })
            .collect(),
    }
}

fn story(id: &str) -> UserStory {
    UserStory {
        id: id.to_string(),
        title: String::new(),
        priority: Priority::P2,
        description: String::new(),
        acceptance_scenarios: vec![],
        independent_test: String::new(),
    }
}

fn messages(r: &ValidationCheckResult) -> Vec<(bool, String)> {
    r.details.iter().map(|d| (d.is_error(), d.message().to_string())).collect()
}

#[test]
fn spec_plan_consistency_reports_each_story() {
    let spec = SpecArtifact {
        user_stories: vec![story("US1"), story("US2")],
        requirements: vec![],
        clarifications: vec![],
        success_criteria: vec![],
    };
    let t = tasks(vec![(vec![task("T1", &[], Some("US1"), false)], None)]);
    let r = validator().check_spec_plan_consistency(&spec, &t);
    assert!(!r.passed);
    assert_eq!(r.tier, QualityTier::Red);
    assert_eq!(
        messages(&r),
        vec![
            (false, "User story US1 has tasks".to_string()),
            (true, "User story US2 missing tasks".to_string()),
            (false, "1 tasks across 1 phases".to_string()),
        ]
    );
}

#[test]
fn spec_plan_consistency_without_tasks_fails() {
    let spec = SpecArtifact { user_stories: vec![], requirements: vec![], clarifications: vec![], success_criteria: vec![] };
    let r = validator().check_spec_plan_consistency(&spec, &tasks(vec![]));
    assert!(!r.passed);
    assert_eq!(messages(&r), vec![(true, "No tasks defined".to_string())]);
}

#[test]
fn feasibility_passes_clean_plan() {
    let t = tasks(vec![
        (vec![task("T1", &[], None, true), task("T2", &["T1"], None, true)], Some("check")),
        (vec![task("T3", &["T2"], None, false)], Some("done")),
    ]);
    let r = validator().check_execution_feasibility(&t);
    assert!(r.passed);
    assert_eq!(r.tier, QualityTier::Green);
    assert_eq!(
        messages(&r),
        vec![(false, "All phases have checkpoints".to_string()), (false, "2 tasks can run in parallel".to_string())]
    );
}

#[test]
fn feasibility_reports_cycle_and_missing_dependency() {
    let t = tasks(vec![(vec![task("A", &["B"], None, false), task("B", &["A", "Z"], None, false)], None)]);
    let r = validator().check_execution_feasibility(&t);
    assert!(!r.passed);
    let m = messages(&r);
    assert!(m[0].0 && m[0].1.starts_with("Circular dependency: "));
    assert_eq!(m[1], (true, "Task B depends on non-existent task Z".to_string()));
    assert_eq!(m[2], (false, "Some phases missing checkpoints".to_string()));
    assert_eq!(m.len(), 3);
}

#[test]
fn collect_issues_only_from_failed_checks() {
    let failed = ValidationCheckResult {
        passed: false,
        tier: QualityTier::Red,
        details: vec![
            CheckDetail::Info("fine".to_string()),
            CheckDetail::Error("broken".to_string()),
            CheckDetail::Warning("hmm".to_string()),
        ],
    };
    let mut issues = Vec::new();
    collect_issues_from(&failed, "Execution Feasibility", &mut issues);
    assert_eq!(issues.len(), 1);
    assert_eq!(issues[0].severity, IssueSeverity::Error);
    assert_eq!(issues[0].category, "Execution Feasibility");
    assert_eq!(issues[0].description, "broken");
    let passed = ValidationCheckResult { passed: true, tier: QualityTier::Green, details: failed.details.clone() };
    collect_issues_from(&passed, "x", &mut issues);
    assert_eq!(issues.len(), 1);
}

#[test]
fn quality_tier_allows_proceed() {
    assert!(QualityTier::Green.allows_proceed());
    assert!(QualityTier::Yellow.allows_proceed());
    assert!(!QualityTier::Red.allows_proceed());
}

fn issue(category: &str, severity: IssueSeverity) -> ValidationIssue {
    ValidationIssue { severity, category: category.to_string(), description: format!("{} problem", category) }
}

#[test]
fn revision_feedback_categorizes_issues() {
    let issues = vec![
        issue("Evidence Alignment", IssueSeverity::Error),
        issue("Execution Feasibility", IssueSeverity::Error),
        issue("DEPENDENCY graph", IssueSeverity::Warning),
        issue("Other", IssueSeverity::Critical),
        issue("Other", IssueSeverity::Info),
    ];
    let warnings = vec!["Evidence gaps: tests".to_string(), "Some clarifications are still pending".to_string()];
    let f = RevisionFeedback::from_issues(&issues, &warnings).expect("feedback");
    let cats: Vec<RevisionCategory> = f.suggestions.iter().map(|s| s.category).collect();
    assert_eq!(
        cats,
        vec![
            RevisionCategory::MissingEvidence,
            RevisionCategory::FeasibilityIssue,
            RevisionCategory::DependencyError,
            RevisionCategory::FeasibilityIssue,
            RevisionCategory::MissingEvidence,
            RevisionCategory::MissingEvidence,
        ]
    );
    assert_eq!(f.suggestions[5].problem, "Evidence gaps: tests");
    assert_eq!(
        f.format_for_llm().lines().take(3).collect::<Vec<_>>(),
        vec![
            "## Previous Validation Feedback",
            "Address these issues in the revised plan:",
            "- MissingEvidence: Evidence Alignment problem → Gather more evidence or adjust scope to available evidence",
        ]
    );
}

#[test]
fn revision_feedback_none_without_suggestions() {
    assert!(RevisionFeedback::from_issues(&[], &[]).is_none());
    assert!(RevisionFeedback::from_issues(&[], &["unrelated".to_string()]).is_none());
    let empty = RevisionFeedback { suggestions: vec![] };
    assert_eq!(empty.format_for_llm(), "");
}

#[test]
fn categorize_lowered_order_of_rules() {
    assert_eq!(categorize_lowered("spec coverage", IssueSeverity::Info).0, RevisionCategory::MissingEvidence);
    assert_eq!(categorize_lowered("spec", IssueSeverity::Info).0, RevisionCategory::SpecMismatch);
    assert_eq!(categorize_lowered("constitution", IssueSeverity::Info).0, RevisionCategory::ScopeCreep);
    let (c, fix) = categorize_lowered("misc", IssueSeverity::Error);
    assert_eq!(c, RevisionCategory::FeasibilityIssue);
    assert_eq!(fix, "Address critical issue before proceeding");
}

#[test]
fn uppercase_category_is_lowercased_before_matching() {
    let f = RevisionFeedback::from_issues(&[issue("SCOPE", IssueSeverity::Info)], &[]).unwrap();
    assert_eq!(f.suggestions[0].category, RevisionCategory::ScopeCreep);
}

fn strs(v: &[&str]) -> Vec<String> {
    v.iter().map(|s| s.to_string()).collect()
}

#[test]
fn evidence_backing_rules() {
    let ev = strs(&["src/auth"]);
    let plan = strs(&["src/api/routes.rs"]);
    let new = strs(&["./src/new.rs"]);
    let areas = strs(&["docs"]);
    assert_eq!(path_has_evidence_backing("../x.rs", &ev, &plan, &new, &areas, true, true), (false, false));
    assert_eq!(path_has_evidence_backing("src/new.rs", &ev, &plan, &new, &areas, true, false), (true, true));
    assert_eq!(path_has_evidence_backing("src/new.rs", &ev, &plan, &new, &areas, false, true), (false, false));
    assert_eq!(path_has_evidence_backing("src/auth/login.rs", &ev, &plan, &new, &areas, false, false), (true, false));
    assert_eq!(path_has_evidence_backing("src/api/routes.rs", &ev, &plan, &new, &areas, false, true), (true, false));
    assert_eq!(path_has_evidence_backing("docs/x.md", &ev, &plan, &new, &areas, false, false), (false, false));
    assert_eq!(path_has_evidence_backing("other.rs", &ev, &plan, &new, &areas, true, true), (false, false));
}
