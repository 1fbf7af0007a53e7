use claude_pilot::artifacts::{
    AcceptanceScenario, Clarification, PlannedTask, Requirement, SpecArtifact, TaskPhase, TasksArtifact, UserStory,
};
use claude_pilot::domain::Priority;
use claude_pilot::graph::detect_cycle;

fn task(id: &str, deps: &[&str], parallel: bool, story: Option<&str>) -> PlannedTask {
    PlannedTask {
        id: id.to_string(),
        description: format!("Implement {}", id),
        user_story: story.map(|s| s.to_string()),
        parallel,
        dependencies: deps.iter().map(|s| s.to_string()).collect(),
        affected_files: vec![],
        test_patterns: vec![],
    }
}

fn phase(id: &str, tasks: Vec<PlannedTask>, checkpoint: Option<&str>) -> TaskPhase {
    TaskPhase {
        id: id.to_string(),
        name: format!("Phase {}", id),
        purpose: "Purpose".to_string(),
        tasks,
        checkpoint: checkpoint.map(|c| c.to_string()),
    }
}

#[test]
fn counts_tasks_and_parallel_tasks() {
    let t = TasksArtifact {
        phases: vec![
            phase("1", vec![task("T1", &[], true, None), task("T2", &[], false, None)], None),
            phase("2", vec![task("T3", &[], true, None)], None),
        ],
    };
    assert_eq!(t.total_tasks(), 3);
    assert_eq!(t.parallel_tasks(), 2);
}

#[test]
fn normalize_renames_and_drops_unknown_dependencies() {
    let mut t = TasksArtifact {
        phases: vec![
            phase("1", vec![task("A", &[], false, None), task("B", &["A", "ghost"], false, None)], None),
            phase("2", vec![task("C", &["B"], false, None)], None),
        ],
    };
    let dropped = t.normalize_task_ids();
    let ids: Vec<&str> = t.phases.iter().flat_map(|p| p.tasks.iter()).map(|t| t.id.as_str()).collect();
    assert_eq!(ids, vec!["P1T1", "P1T2", "P2T1"]);
    assert_eq!(t.phases[0].tasks[1].dependencies, vec!["P1T1".to_string()]);
    assert_eq!(t.phases[1].tasks[0].dependencies, vec!["P1T2".to_string()]);
    assert_eq!(dropped.len(), 1);
    assert_eq!(dropped[0].task_id, "P1T2");
    assert_eq!(dropped[0].invalid_dep, "ghost");
}

#[test]
fn normalized_ids_are_distinct_and_dependencies_resolve() {
    let mut phase_one = Vec::new();
    for i in 0..11 {
        let id = format!("T{}", i);
        let deps: Vec<String> = if i > 0 { vec![format!("T{}", i - 1), "missing".to_string()] } else { vec![] };
        let dep_refs: Vec<&str> = deps.iter().map(|d| d.as_str()).collect();
        phase_one.push(task(&id, &dep_refs, false, None));
    }
    let mut t = TasksArtifact {
        phases: vec![
            phase("1", phase_one, None),
            phase("2", vec![task("X", &["T10", "T0"], true, None)], None),
        ],
    };
    let dropped = t.normalize_task_ids();
    assert_eq!(dropped.len(), 10);
    let ids: Vec<String> = t.phases.iter().flat_map(|p| p.tasks.iter()).map(|t| t.id.clone()).collect();
    for (i, a) in ids.iter().enumerate() {
        for b in ids.iter().skip(i + 1) {
            assert_ne!(a, b);
        }
    }
    assert!(ids.contains(&"P1T11".to_string()));
    for task in t.phases.iter().flat_map(|p| p.tasks.iter()) {
        for dep in &task.dependencies {
            assert!(ids.contains(dep));
        }
    }
    assert_eq!(t.phases[1].tasks[0].dependencies, vec!["P1T11".to_string(), "P1T1".to_string()]);
}

#[test]
fn normalizing_twice_changes_nothing() {
    let mut t = TasksArtifact {
        phases: vec![
            phase("1", vec![task("A", &["B"], false, None), task("A", &["ghost", "A"], true, Some("US1"))], Some("cp")),
            phase("2", vec![task("B", &["A", "nowhere"], false, None)], None),
        ],
    };
    let before: usize = t.phases.iter().flat_map(|p| p.tasks.iter()).map(|t| t.dependencies.len()).sum();
    let dropped = t.normalize_task_ids();
    let kept: usize = t.phases.iter().flat_map(|p| p.tasks.iter()).map(|t| t.dependencies.len()).sum();
    assert_eq!(before, 5);
    assert_eq!(kept + dropped.len(), before);
    assert_eq!(dropped.len(), 2);
    assert_eq!(t.phases[0].tasks[0].dependencies, vec!["P2T1".to_string()]);
    assert_eq!(t.phases[0].tasks[1].dependencies, vec!["P1T2".to_string()]);
    assert_eq!(t.phases[1].tasks[0].dependencies, vec!["P1T2".to_string()]);

    let snapshot: Vec<(String, Vec<String>, bool, Option<String>)> = t
        .phases
        .iter()
        .flat_map(|p| p.tasks.iter())
        .map(|t| (t.id.clone(), t.dependencies.clone(), t.parallel, t.user_story.clone()))
        .collect();
    let again = t.normalize_task_ids();
    assert!(again.is_empty());
    let after: Vec<(String, Vec<String>, bool, Option<String>)> = t
        .phases
        .iter()
        .flat_map(|p| p.tasks.iter())
        .map(|t| (t.id.clone(), t.dependencies.clone(), t.parallel, t.user_story.clone()))
        .collect();
    assert_eq!(after, snapshot);
    assert_eq!(t.phases[0].checkpoint, Some("cp".to_string()));
}

#[test]
fn dependency_map_detects_task_cycle() {
    let t = TasksArtifact {
        phases: vec![phase("1", vec![task("A", &["B"], false, None), task("B", &["A"], false, None)], None)],
    };
    assert!(detect_cycle(&t.to_dependency_map()).is_some());
    let t = TasksArtifact { phases: vec![phase("1", vec![task("A", &["B"], false, None), task("B", &[], false, None)], None)] };
    assert!(detect_cycle(&t.to_dependency_map()).is_none());
}

#[test]
fn tasks_markdown_layout() {
    let t = TasksArtifact {
        phases: vec![phase("P1", vec![task("T1", &[], true, Some("US1")), task("T2", &[], false, None)], Some("All green"))],
    };
    assert_eq!(
        t.to_markdown(),
        "# Tasks\n\n## P1 - Phase P1\n\n**Purpose**: Purpose\n\n- [ ] T1 [P] [US1] Implement T1\n- [ ] T2   Implement T2\n\n**Checkpoint**: All green\n\n---\n\n"
    );
}

fn spec() -> SpecArtifact {
    SpecArtifact {
        user_stories: vec![UserStory {
            id: "US1".to_string(),
            title: "Login".to_string(),
            priority: Priority::P1,
            description: "Users log in".to_string(),
            acceptance_scenarios: vec![AcceptanceScenario {
                given: "a user".to_string(),
                when: "they log in".to_string(),
                outcome: "they see the dashboard".to_string(),
            }],
            independent_test: "Log in manually".to_string(),
        }],
        requirements: vec![
            Requirement {
                id: "FR-001".to_string(),
                description: "Accept passwords".to_string(),
                needs_clarification: false,
                clarification_note: None,
            },
            Requirement {
                id: "FR-002".to_string(),
                description: "Support SSO".to_string(),
                needs_clarification: true,
                clarification_note: None,
            },
        ],
        clarifications: vec![Clarification {
            id: "C1".to_string(),
            question: "Which SSO?".to_string(),
            context: "".to_string(),
            options: vec![],
            resolved: false,
            answer: None,
        }],
        success_criteria: vec!["Login works".to_string()],
    }
}

#[test]
fn spec_markdown_layout() {
    let s = spec();
    assert_eq!(
        s.to_markdown(),
        "# Feature Specification\n\n## User Stories\n\n### US1 - Login (Priority: P1)\n\nUsers log in\n\n**Independent Test**: Log in manually\n\n**Acceptance Scenarios**:\n\n1. **Given** a user, **When** they log in, **Then** they see the dashboard\n\n---\n\n## Requirements\n\n- **FR-001**: Accept passwords\n- **FR-002**: Support SSO [NEEDS CLARIFICATION: Details needed]\n\n## Success Criteria\n\n- **SC-001**: Login works\n"
    );
}

#[test]
fn pending_clarifications_are_the_unresolved_ones() {
    let mut s = spec();
    assert!(s.has_clarifications());
    assert_eq!(s.pending_clarifications().len(), 1);
    s.clarifications[0].resolved = true;
    assert!(!s.has_clarifications());
    assert!(s.pending_clarifications().is_empty());
}

use claude_pilot::artifacts::{
    ConstitutionCheck, PlanArtifact, PrincipleCheckResult, ProjectStructure, RiskAssessment, RiskFactor, StructureType,
    TechnicalContext,
};
use claude_pilot::domain::{IsolationMode, RiskLevel};

fn check(passed: bool, note: Option<&str>) -> PrincipleCheckResult {
    PrincipleCheckResult { passed, note: note.map(|n| n.to_string()) }
}

pub fn plan(risk: RiskLevel, isolation: IsolationMode) -> PlanArtifact {
    PlanArtifact {
        summary: "Add login".to_string(),
        technical_context: TechnicalContext {
            language: "Rust".to_string(),
            primary_dependencies: vec!["tokio".to_string(), "serde".to_string()],
            storage: None,
            testing: "cargo test".to_string(),
            target_platform: "linux".to_string(),
        },
        project_structure: ProjectStructure {
            structure_type: StructureType::SingleProject,
            affected_paths: vec![],
            new_paths: vec![],
        },
        constitution_check: ConstitutionCheck {
            fact_based: check(true, None),
            code_consistency: check(true, Some("ok")),
            dry_principle: check(false, Some("duplicated parser")),
            work_verification: check(true, None),
            minimal_scope: check(false, None),
            intellectual_honesty: check(true, None),
        },
        risk_assessment: RiskAssessment {
            overall_risk: risk,
            factors: vec![RiskFactor {
                factor: "Auth".to_string(),
                impact: RiskLevel::High,
                mitigation: "Tests".to_string(),
            }],
            recommended_isolation: isolation,
            rollback_strategy: "Revert".to_string(),
        },
    }
}

#[test]
fn constitution_issues_list_failed_principles() {
    let p = plan(RiskLevel::Low, IsolationMode::Auto);
    assert_eq!(
        p.constitution_check.issues(),
        vec!["DRY: duplicated parser".to_string(), "Minimal Scope: Issue".to_string()]
    );
    assert_eq!(p.constitution_check.checks().len(), 6);
}

#[test]
fn plan_markdown_layout() {
    let p = plan(RiskLevel::Medium, IsolationMode::Branch);
    assert_eq!(
        p.to_markdown(),
        "# Implementation Plan\n\n## Summary\n\nAdd login\n\n## Technical Context\n\n- **Language**: Rust\n- **Dependencies**: tokio, serde\n- **Testing**: cargo test\n- **Platform**: linux\n\n## Constitution Check\n\n- PASS Fact-Based Development \n- PASS Code Consistency ok\n- FAIL DRY Principle duplicated parser\n- PASS Work Verification \n- FAIL Minimal Scope \n- PASS Intellectual Honesty \n\n## Risk Assessment\n\n**Overall Risk**: medium\n\n- **Auth** (high): Tests\n\n**Rollback Strategy**: Revert\n"
    );
}
