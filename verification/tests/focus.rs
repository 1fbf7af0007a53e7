use claude_pilot::artifacts::{
    ConstitutionCheck, PlanArtifact, PlannedTask, PrincipleCheckResult, ProjectStructure, RiskAssessment,
    StructureType, TaskPhase, TasksArtifact, TechnicalContext,
};
use claude_pilot::domain::{IsolationMode, RiskLevel};
use claude_pilot::focus::{
    DriftWarning, ExpectedScope, FileChanges, FileClassification, FocusConfig, FocusTracker, WarningSeverity,
};
use claude_pilot::paths::extract_module;

#[test]
fn test_extract_module_uses_parent_directory() {
    assert_eq!(extract_module("src/verification/mod.rs"), "verification");
    assert_eq!(extract_module("src/agent/task_agent.rs"), "agent");
    assert_eq!(extract_module("lib/core/engine.rs"), "core");
    assert_eq!(extract_module("pkg/server/main.go"), "server");
    assert_eq!(extract_module("internal/auth/handler.go"), "auth");
    assert_eq!(extract_module("src/main.rs"), "src");
    assert_eq!(extract_module("lib/index.ts"), "lib");
    assert_eq!(extract_module("Cargo.toml"), "root");
    assert_eq!(extract_module("README.md"), "root");
}

#[test]
fn test_expected_scope_classification() {
    let mut scope = ExpectedScope::new("test");
    scope.primary_files.insert("src/main.rs".to_string());
    scope.secondary_files.insert("src/lib.rs".to_string());
    scope.expected_modules.insert("verification".to_string());

    assert_eq!(scope.classify_file("src/main.rs"), FileClassification::Primary);
    assert_eq!(scope.classify_file("src/lib.rs"), FileClassification::Secondary);
    assert_eq!(scope.classify_file("src/verification/mod.rs"), FileClassification::SameModule);
    assert_eq!(scope.classify_file("src/other/mod.rs"), FileClassification::Unexpected);
}

#[test]
fn test_focus_tracker_context_switches() {
    let config = FocusConfig { max_context_switches: 2, ..Default::default() };
    let mut tracker = FocusTracker::new(config);

    let scope = ExpectedScope::new("T1");
    tracker.start_task("T1", scope);

    tracker.record_file_access("T1", "src/agent/mod.rs");
    tracker.record_file_access("T1", "src/verification/mod.rs");
    tracker.record_file_access("T1", "src/planning/mod.rs");
    tracker.record_file_access("T1", "src/recovery/mod.rs");

    let changes = FileChanges {
        created: vec![],
        modified: vec![
            "src/agent/mod.rs".to_string(),
            "src/verification/mod.rs".to_string(),
            "src/planning/mod.rs".to_string(),
            "src/recovery/mod.rs".to_string(),
        ],
        deleted: vec![],
    };

    let validation = tracker.validate_completion("T1", &changes);
    assert_eq!(validation.context_switches, 3);
    assert!(validation.warnings.iter().any(|w| matches!(w, DriftWarning::TooManyContextSwitches { .. })));
}

#[test]
fn test_drift_warning_severity() {
    let warning = DriftWarning::UnexpectedFile {
        file: "test.rs".to_string(),
        severity: WarningSeverity::High,
        reason: "test".into(),
    };
    assert_eq!(warning.severity(), WarningSeverity::High);

    let warning = DriftWarning::ScopeCreep { expected_files: 2, actual_files: 10, unexpected: vec![] };
    assert_eq!(warning.severity(), WarningSeverity::High);
}

#[test]
fn test_focus_tracker_disabled() {
    let config = FocusConfig { enabled: false, ..Default::default() };
    let mut tracker = FocusTracker::new(config);

    let scope = ExpectedScope::new("T1");
    tracker.start_task("T1", scope);

    let changes = FileChanges::empty();
    let validation = tracker.validate_completion("T1", &changes);

    assert!(validation.passed);
    assert!(validation.warnings.is_empty());
}

#[test]
fn context_switch_counter_ignores_repeated_module() {
    let mut tracker = FocusTracker::new(FocusConfig::default());
    tracker.start_task("T1", ExpectedScope::new("T1"));
    tracker.record_file_access("T1", "src/agent/a.rs");
    tracker.record_file_access("T1", "src/agent/b.rs");
    tracker.record_file_access("T1", "src/planning/c.rs");
    let changes = FileChanges::empty();
    let validation = tracker.validate_completion("T1", &changes);
    assert_eq!(validation.context_switches, 1);
    assert!(validation.passed);
}

#[test]
fn untracked_task_passes_validation() {
    let mut tracker = FocusTracker::new(FocusConfig::default());
    let changes = FileChanges {
        created: vec!["src/x/new.rs".to_string()],
        modified: vec![],
        deleted: vec![],
    };
    let validation = tracker.validate_completion("unknown", &changes);
    assert!(validation.passed);
    assert!(validation.warnings.is_empty());
    assert_eq!(validation.context_switches, 0);
}

#[test]
fn warning_severity_thresholds() {
    let w = DriftWarning::TooManyContextSwitches { count: 11, threshold: 5, modules: vec![] };
    assert_eq!(w.severity(), WarningSeverity::High);
    let w = DriftWarning::TooManyContextSwitches { count: 10, threshold: 5, modules: vec![] };
    assert_eq!(w.severity(), WarningSeverity::Medium);
    let w = DriftWarning::ScopeCreep { expected_files: 0, actual_files: 2, unexpected: vec![] };
    assert_eq!(w.severity(), WarningSeverity::Low);
    let w = DriftWarning::ScopeCreep { expected_files: 2, actual_files: 5, unexpected: vec![] };
    assert_eq!(w.severity(), WarningSeverity::Medium);
    let w = DriftWarning::CrossModuleChange {
        source_module: "a".to_string(),
        target_module: "b".to_string(),
        files: vec![],
    };
    assert_eq!(w.severity(), WarningSeverity::Medium);
}

#[test]
fn affected_files_lists_created_modified_deleted() {
    let changes = FileChanges {
        created: vec!["a".to_string()],
        modified: vec!["b".to_string()],
        deleted: vec!["c".to_string()],
    };
    assert_eq!(changes.affected_files(), vec!["a".to_string(), "b".to_string(), "c".to_string()]);
}

fn scope_plan(affected: &[&str], new: &[&str]) -> PlanArtifact {
    let ok = || PrincipleCheckResult { passed: true, note: None };
    PlanArtifact {
        summary: "Scope".to_string(),
        technical_context: TechnicalContext {
            language: "Rust".to_string(),
            primary_dependencies: vec![],
            storage: None,
            testing: "cargo test".to_string(),
            target_platform: "linux".to_string(),
        },
        project_structure: ProjectStructure {
            structure_type: StructureType::SingleProject,
            affected_paths: affected.iter().map(|s| s.to_string()).collect(),
            new_paths: new.iter().map(|s| s.to_string()).collect(),
        },
        constitution_check: ConstitutionCheck {
            fact_based: ok(),
            code_consistency: ok(),
            dry_principle: ok(),
            work_verification: ok(),
            minimal_scope: ok(),
            intellectual_honesty: ok(),
        },
        risk_assessment: RiskAssessment {
            overall_risk: RiskLevel::Low,
            factors: vec![],
            recommended_isolation: IsolationMode::Auto,
            rollback_strategy: "Revert".to_string(),
        },
    }
}

fn scope_tasks() -> TasksArtifact {
    let t = |id: &str, files: &[&str]| PlannedTask {
        id: id.to_string(),
        description: id.to_string(),
        user_story: None,
        parallel: false,
        dependencies: vec![],
        affected_files: files.iter().map(|s| s.to_string()).collect(),
        test_patterns: vec![],
    };
    TasksArtifact {
        phases: vec![TaskPhase {
            id: "P1".to_string(),
            name: "Core".to_string(),
            purpose: "Core".to_string(),
            tasks: vec![t("T1", &["src/agent/run.rs"]), t("T2", &["src/cli/main.rs"])],
            checkpoint: None,
        }],
    }
}

#[test]
fn derive_scope_collects_plan_task_and_evidence_paths() {
    let tracker = FocusTracker::new(FocusConfig::default());
    let plan = scope_plan(&["src/focus/mod.rs"], &["src/focus/new.rs"]);
    let tasks = scope_tasks();
    let evidence = vec!["src/graph/cycle.rs".to_string()];
    let scope = tracker.derive_scope("T1", Some(&plan), Some(&tasks), Some(&evidence));

    assert!(scope.primary_files.contains("src/focus/mod.rs"));
    assert!(scope.primary_files.contains("src/focus/new.rs"));
    assert!(scope.primary_files.contains("src/agent/run.rs"));
    assert!(!scope.primary_files.contains("src/cli/main.rs"));
    assert_eq!(scope.primary_files.len(), 3);
    assert!(scope.secondary_files.contains("src/graph/cycle.rs"));
    assert_eq!(scope.secondary_files.len(), 1);
    assert!(scope.expected_modules.contains("focus"));
    assert!(scope.expected_modules.contains("agent"));
    assert!(scope.expected_modules.contains("graph"));
    assert!(!scope.expected_modules.contains("cli"));
    assert_eq!(scope.expected_modules.len(), 3);
    assert_eq!(scope.classify_file("src/agent/run.rs"), FileClassification::Primary);
    assert_eq!(scope.classify_file("src/graph/cycle.rs"), FileClassification::Secondary);
    assert_eq!(scope.classify_file("src/focus/other.rs"), FileClassification::SameModule);
}

#[test]
fn derive_scope_respects_disabled_sources() {
    let config = FocusConfig { derive_from_plan: false, derive_from_evidence: false, ..Default::default() };
    let tracker = FocusTracker::new(config);
    let plan = scope_plan(&["src/focus/mod.rs"], &[]);
    let evidence = vec!["src/graph/cycle.rs".to_string()];
    let scope = tracker.derive_scope("T1", Some(&plan), None, Some(&evidence));
    assert_eq!(scope.primary_files.len(), 0);
    assert_eq!(scope.secondary_files.len(), 0);
    assert_eq!(scope.expected_modules.len(), 0);
    let empty = FocusTracker::new(FocusConfig::default()).derive_scope("T9", None, None, None);
    assert_eq!(empty.primary_files.len(), 0);
    assert_eq!(empty.task_id, "T9");
}

#[test]
fn second_validation_finds_no_scope() {
    let config = FocusConfig { max_context_switches: 0, ..Default::default() };
    let mut tracker = FocusTracker::new(config);
    tracker.start_task("T1", ExpectedScope::new("T1"));
    tracker.record_file_access("T1", "src/agent/mod.rs");
    tracker.record_file_access("T1", "src/planning/mod.rs");
    let changes = FileChanges {
        created: vec!["src/agent/mod.rs".to_string()],
        modified: vec!["src/planning/mod.rs".to_string()],
        deleted: vec![],
    };
    let first = tracker.validate_completion("T1", &changes);
    assert_eq!(first.context_switches, 1);
    assert!(!first.warnings.is_empty());

    let second = tracker.validate_completion("T1", &changes);
    assert_eq!(second.task_id, "T1");
    assert!(second.passed);
    assert!(second.warnings.is_empty());
    assert_eq!(second.context_switches, 0);
    assert!(second.modules_touched.is_empty());
}

#[test]
fn run_of_accesses_counts_each_module_change() {
    let mut tracker = FocusTracker::new(FocusConfig::default());
    tracker.start_task("T1", ExpectedScope::new("T1"));
    for path in [
        "src/agent/a.rs",
        "src/agent/b.rs",
        "src/planning/c.rs",
        "src/agent/d.rs",
        "src/agent/e.rs",
        "src/recovery/f.rs",
    ] {
        tracker.record_file_access("T1", path);
    }
    // Accesses for a task that was never started change nothing.
    tracker.record_file_access("T2", "src/other/x.rs");
    let empty = FileChanges { created: vec![], modified: vec![], deleted: vec![] };
    let v = tracker.validate_completion("T1", &empty);
    assert_eq!(v.context_switches, 3);
    assert_eq!(v.modules_touched, vec!["agent".to_string(), "planning".to_string(), "recovery".to_string()]);
    let other = tracker.validate_completion("T2", &empty);
    assert_eq!(other.context_switches, 0);
    assert!(other.modules_touched.is_empty());
}
