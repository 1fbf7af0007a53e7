use claude_pilot::agent::{AgentConfig, ModelConfig};
use claude_pilot::alignment::{AlignmentEvidence, PathFacts};
use claude_pilot::artifacts::{
    AcceptanceScenario, Clarification, ConstitutionCheck, PlanArtifact, PlannedTask, PrincipleCheckResult,
    ProjectStructure, RiskAssessment, SpecArtifact, StructureType, TaskPhase, TasksArtifact, TechnicalContext,
    UserStory,
};
use claude_pilot::compliance::EvidenceQualityScore;
use claude_pilot::domain::{IsolationMode, IssueSeverity, Priority, RiskLevel};
use claude_pilot::evidence::EvidenceSufficiency;
use claude_pilot::validation::{CheckDetail, PlanValidator, QualityTier, ValidationCheckResult};
use claude_pilot::verdict::{EvidenceFindings, ValidationResult};

fn validator() -> PlanValidator {
    let config = AgentConfig {
        timeout_secs: 600,
        planning_timeout_secs: 0,
        max_sdk_iterations: 50,
        plugin_dirs: vec![],
        planning_model: ModelConfig { model_id: "planner".to_string(), context_window: 200000, extended_context: false },
    };
    PlanValidator::with_config("/work", &config).expect("validator")
}

fn spec(resolved: bool) -> SpecArtifact {
    SpecArtifact {
        user_stories: vec![UserStory {
            id: "US1".to_string(),
            title: "Login".to_string(),
            priority: Priority::P1,
            description: "Users log in".to_string(),
            acceptance_scenarios: vec![AcceptanceScenario {
                given: "a user".to_string(),
                when: "they log in".to_string(),
                outcome: "they see the dashboard".to_string(),
            }],
            independent_test: "Log in manually".to_string(),
        }],
        requirements: vec![],
        clarifications: vec![Clarification {
            id: "C1".to_string(),
            question: "Which SSO?".to_string(),
            context: "".to_string(),
            options: vec![],
            resolved,
            answer: None,
        }],
        success_criteria: vec![],
    }
}

fn plan() -> PlanArtifact {
    let ok = || PrincipleCheckResult { passed: true, note: None };
    PlanArtifact {
        summary: "Auth".to_string(),
        technical_context: TechnicalContext {
            language: "Rust".to_string(),
            primary_dependencies: vec![],
            storage: None,
            testing: "cargo test".to_string(),
            target_platform: "linux".to_string(),
        },
        project_structure: ProjectStructure {
            structure_type: StructureType::SingleProject,
            affected_paths: vec!["src/auth/login.rs".to_string()],
            new_paths: vec![],
        },
        constitution_check: ConstitutionCheck {
            fact_based: ok(),
            code_consistency: ok(),
            dry_principle: ok(),
            work_verification: ok(),
            minimal_scope: ok(),
            intellectual_honesty: ok(),
        },
        risk_assessment: RiskAssessment {
            overall_risk: RiskLevel::Low,
            factors: vec![],
            recommended_isolation: IsolationMode::Auto,
            rollback_strategy: "Revert".to_string(),
        },
    }
}

fn tasks() -> TasksArtifact {
    TasksArtifact {
        phases: vec![TaskPhase {
            id: "P1".to_string(),
            name: "Core".to_string(),
            purpose: "Core".to_string(),
            tasks: vec![PlannedTask {
                id: "T1".to_string(),
                description: "Implement login".to_string(),
                user_story: Some("US1".to_string()),
                parallel: false,
                dependencies: vec![],
                affected_files: vec!["src/auth/login.rs".to_string()],
                test_patterns: vec![],
            }],
            checkpoint: Some("Login works".to_string()),
        }],
    }
}

fn findings(sufficiency: EvidenceSufficiency, quality_tier: QualityTier) -> EvidenceFindings {
    EvidenceFindings {
        sufficiency,
        quality_check: ValidationCheckResult {
            passed: quality_tier != QualityTier::Red,
            tier: quality_tier,
            details: vec![CheckDetail::Info("Evidence quality: 85.0% (tier: Green)".to_string())],
        },
        quality: EvidenceQualityScore { meets_minimum: true, percent: 85 },
        alignment: AlignmentEvidence {
            relevant_files: vec!["src/auth/login.rs".to_string()],
            affected_areas: vec!["src/auth".to_string()],
            existing_patterns: 0,
        },
        facts: vec![PathFacts {
            path: "src/auth/login.rs".to_string(),
            exists: true,
            new_path_safe: true,
            inside_working_dir: true,
        }],
    }
}

fn run(resolved: bool, f: EvidenceFindings) -> ValidationResult {
    validator().validate(&spec(resolved), &plan(), &tasks(), f, 50, 5).expect("validation runs")
}

#[test]
fn sufficiency_descriptions() {
    assert_eq!(EvidenceSufficiency::Complete.description(), "Complete - all required evidence gathered");
    let s = EvidenceSufficiency::Sufficient { coverage_pct: 75, missing: vec!["tests".to_string(), "docs".to_string()] };
    assert_eq!(s.description(), "Sufficient - 75% coverage (missing: tests, docs)");
    assert!(s.allows_planning());
    assert!(!s.requires_llm_assessment());
    let r = EvidenceSufficiency::SufficientButRisky {
        coverage_pct: 45,
        missing: vec![],
        risk_context: "large refactor".to_string(),
    };
    assert_eq!(r.description(), "Risky - 45% coverage: large refactor");
    assert!(r.requires_llm_assessment());
    let i = EvidenceSufficiency::Insufficient { reason: "no tests found".to_string(), coverage_pct: 20 };
    assert_eq!(i.description(), "Insufficient - 20% coverage: no tests found");
    assert!(!i.allows_planning());
    assert_eq!(i.coverage_pct(), 20);
    assert_eq!(EvidenceSufficiency::Complete.coverage_pct(), 100);
}

#[test]
fn grounded_plan_passes_with_summary() {
    let v = run(true, findings(EvidenceSufficiency::Complete, QualityTier::Green));
    assert!(v.passed);
    assert!(!v.requires_complexity_assessment);
    assert!(v.issues.is_empty());
    assert!(v.warnings.is_empty());
    assert!(v.revision_feedback.is_none());
    assert_eq!(
        v.to_summary(),
        "Evidence Sufficiency: OK (coverage: 100%)\nSpec-Plan Consistency: PASS\nEvidence Quality: PASS\n\
         Evidence Alignment: PASS\nConstitution Compliance: PASS\nExecution Feasibility: PASS\n"
    );
}

#[test]
fn insufficient_evidence_fails_with_issue_and_feedback() {
    let insufficient = EvidenceSufficiency::Insufficient { reason: "no tests found".to_string(), coverage_pct: 20 };
    let v = run(false, findings(insufficient, QualityTier::Green));
    assert!(!v.passed);
    assert_eq!(v.issues.len(), 1);
    assert_eq!(v.issues[0].severity, IssueSeverity::Error);
    assert_eq!(v.issues[0].category, "Evidence Sufficiency");
    assert_eq!(v.issues[0].description, "Insufficient - 20% coverage: no tests found");
    assert_eq!(v.warnings, vec!["Some clarifications are still pending".to_string()]);
    assert!(v.revision_feedback.is_some());
    assert_eq!(
        v.to_summary(),
        "Evidence Sufficiency: INSUFFICIENT (coverage: 20%)\nSpec-Plan Consistency: PASS\nEvidence Quality: PASS\n\
         Evidence Alignment: PASS\nConstitution Compliance: PASS\nExecution Feasibility: PASS\n\nIssues (1):\n  \
         [ERROR] Evidence Sufficiency: Insufficient - 20% coverage: no tests found\n\nWarnings (1):\n  - Some \
         clarifications are still pending\n"
    );
}

#[test]
fn risky_evidence_asks_for_complexity_assessment() {
    let risky = EvidenceSufficiency::SufficientButRisky {
        coverage_pct: 45,
        missing: vec!["tests".to_string(), "docs".to_string()],
        risk_context: "large refactor".to_string(),
    };
    let v = run(true, findings(risky, QualityTier::Green));
    assert!(v.passed);
    assert!(v.requires_complexity_assessment);
    assert_eq!(
        v.warnings,
        vec![
            "Risky evidence (45%): large refactor - LLM should assess if sufficient for task complexity".to_string(),
            "Evidence gaps: tests, docs".to_string(),
        ]
    );
    let fair = run(true, findings(EvidenceSufficiency::Complete, QualityTier::Yellow));
    assert!(fair.passed);
    assert!(fair.requires_complexity_assessment);
}

#[test]
fn failed_check_errors_become_issues() {
    let mut f = findings(EvidenceSufficiency::Complete, QualityTier::Red);
    f.quality_check.details.push(CheckDetail::Error("Quality 20.0% significantly below threshold".to_string()));
    let v = run(true, f);
    assert!(!v.passed);
    assert_eq!(v.issues.len(), 1);
    assert_eq!(v.issues[0].category, "Evidence Quality");
    assert_eq!(v.issues[0].description, "Quality 20.0% significantly below threshold");
    assert!(v.revision_feedback.is_some());
}
