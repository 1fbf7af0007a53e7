use claude_pilot::agent::{AgentConfig, ModelConfig};
use claude_pilot::alignment::{AlignmentEvidence, PathFacts};
use claude_pilot::compliance::EvidenceQualityScore;
use claude_pilot::artifacts::{
    ConstitutionCheck, PlanArtifact, PlannedTask, PrincipleCheckResult, ProjectStructure, RiskAssessment,
    StructureType, TaskPhase, TasksArtifact, TechnicalContext,
};
use claude_pilot::domain::{IsolationMode, RiskLevel};
use claude_pilot::validation::{CheckDetail, PlanValidator, QualityTier};

fn validator() -> PlanValidator {
    let config = AgentConfig {
        timeout_secs: 600,
        planning_timeout_secs: 0,
        max_sdk_iterations: 50,
        plugin_dirs: vec![],
        planning_model: ModelConfig { model_id: "planner".to_string(), context_window: 200000, extended_context: false },
    };
    PlanValidator::with_config("/work", &config).expect("validator")
}

fn strings(v: &[&str]) -> Vec<String> {
    v.iter().map(|s| s.to_string()).collect()
}

fn plan(affected: &[&str], new: &[&str]) -> PlanArtifact {
    let ok = || PrincipleCheckResult { passed: true, note: None };
    PlanArtifact {
        summary: "Auth".to_string(),
        technical_context: TechnicalContext {
            language: "Rust".to_string(),
            primary_dependencies: vec![],
            storage: None,
            testing: "cargo test".to_string(),
            target_platform: "linux".to_string(),
        },
        project_structure: ProjectStructure {
            structure_type: StructureType::SingleProject,
            affected_paths: strings(affected),
            new_paths: strings(new),
        },
        constitution_check: ConstitutionCheck {
            fact_based: ok(),
            code_consistency: ok(),
            dry_principle: ok(),
            work_verification: ok(),
            minimal_scope: ok(),
            intellectual_honesty: ok(),
        },
        risk_assessment: RiskAssessment {
            overall_risk: RiskLevel::Low,
            factors: vec![],
            recommended_isolation: IsolationMode::Auto,
            rollback_strategy: "Revert".to_string(),
        },
    }
}

fn task(id: &str, files: &[&str]) -> PlannedTask {
    PlannedTask {
        id: id.to_string(),
        description: format!("Do {}", id),
        user_story: None,
        parallel: false,
        dependencies: vec![],
        affected_files: strings(files),
        test_patterns: vec![],
    }
}

fn breakdown() -> TasksArtifact {
    TasksArtifact {
        phases: vec![TaskPhase {
            id: "P1".to_string(),
            name: "Core".to_string(),
            purpose: "Core".to_string(),
            tasks: vec![
                task("T1", &["src/auth/login.rs"]),
                task("T2", &["src/auth/new.rs"]),
                task("T3", &["src/db/pool.rs"]),
                task("T4", &[]),
            ],
            checkpoint: None,
        }],
    }
}

fn facts() -> Vec<PathFacts> {
    let f = |path: &str, exists: bool, safe: bool, inside: bool| PathFacts {
        path: path.to_string(),
        exists,
        new_path_safe: safe,
        inside_working_dir: inside,
    };
    vec![
        f("src/auth/new.rs", false, true, false),
        f("src/auth/exists.rs", true, true, true),
        f("src/auth/outside.rs", false, false, false),
        f("src/auth/login.rs", true, true, true),
        f("src/db/pool.rs", false, true, false),
    ]
}

fn evidence() -> AlignmentEvidence {
    AlignmentEvidence {
        relevant_files: strings(&["src/auth/login.rs"]),
        affected_areas: strings(&["src/auth"]),
        existing_patterns: 2,
    }
}

fn texts(details: &[CheckDetail]) -> Vec<(char, String)> {
    details
        .iter()
        .map(|d| match d {
            CheckDetail::Info(m) => ('I', m.clone()),
            CheckDetail::Warning(m) => ('W', m.clone()),
            CheckDetail::Error(m) => ('E', m.clone()),
        })
        .collect()
}

#[test]
fn alignment_reports_coverage_and_new_path_problems() {
    let p = plan(
        &["src/auth/login.rs", "src/auth/login.rs", "src/db/pool.rs"],
        &["src/auth/new.rs", "../escape.rs", "src/dir/", "src/auth/exists.rs", "src/auth/outside.rs", "src/auth/new.rs"],
    );
    let r = validator().check_evidence_alignment(&evidence(), &p, &breakdown(), &facts(), 50, 5);
    let expected = vec![
        ('I', "1 relevant files identified".to_string()),
        ('I', "Plan path coverage: 50% (1/2 paths)".to_string()),
        ('E', "new_paths contains unsafe path '../escape.rs' (must be relative, no .. traversal)".to_string()),
        ('E', "new_paths contains directory 'src/dir/' (must be file paths only)".to_string()),
        ('E', "new_paths contains existing path 'src/auth/exists.rs' (must be files to create)".to_string()),
        ('E', "new_paths 'src/auth/outside.rs' escapes working directory".to_string()),
        ('I', "1 tasks involve planned new files".to_string()),
        ('I', "Task evidence coverage: 67% (2/3)".to_string()),
        ('I', "2 existing patterns found".to_string()),
    ];
    assert_eq!(texts(&r.details), expected);
    assert!(!r.passed);
    assert_eq!(r.tier, QualityTier::Red);
}

#[test]
fn alignment_below_threshold_lists_unbacked_tasks() {
    let p = plan(&["src/auth/login.rs", "src/db/pool.rs"], &["src/auth/new.rs"]);
    let r = validator().check_evidence_alignment(&evidence(), &p, &breakdown(), &facts(), 80, 5);
    let expected = vec![
        ('I', "1 relevant files identified".to_string()),
        ('I', "Plan path coverage: 50% (1/2 paths)".to_string()),
        ('E', "Plan coverage 50% below threshold 80%".to_string()),
        ('I', "1 tasks involve planned new files".to_string()),
        ('I', "Task evidence coverage: 67% (2/3)".to_string()),
        ('E', "Task coverage 67% below threshold 80%".to_string()),
        ('W', "Tasks without evidence: [\"T3\"]".to_string()),
        ('I', "2 existing patterns found".to_string()),
    ];
    assert_eq!(texts(&r.details), expected);
    assert!(!r.passed);
}

#[test]
fn alignment_passes_when_grounded() {
    let p = plan(&["src/auth/login.rs"], &["src/auth/new.rs"]);
    let t = TasksArtifact {
        phases: vec![TaskPhase {
            id: "P1".to_string(),
            name: "Core".to_string(),
            purpose: "Core".to_string(),
            tasks: vec![task("T1", &["src/auth/login.rs"]), task("T2", &["src/auth/new.rs"])],
            checkpoint: None,
        }],
    };
    let ev = AlignmentEvidence { existing_patterns: 0, ..evidence() };
    let r = validator().check_evidence_alignment(&ev, &p, &t, &facts(), 50, 5);
    assert!(r.passed);
    assert_eq!(r.tier, QualityTier::Green);
    assert_eq!(
        texts(&r.details),
        vec![
            ('I', "1 relevant files identified".to_string()),
            ('I', "Plan path coverage: 100% (1/1 paths)".to_string()),
            ('I', "1 tasks involve planned new files".to_string()),
            ('I', "Task evidence coverage: 100% (2/2)".to_string()),
        ]
    );
}

#[test]
fn alignment_without_evidence_fails() {
    let ev = AlignmentEvidence { relevant_files: vec![], affected_areas: vec![], existing_patterns: 0 };
    let p = plan(&[], &[]);
    let t = TasksArtifact { phases: vec![] };
    let r = validator().check_evidence_alignment(&ev, &p, &t, &vec![], 50, 5);
    assert!(!r.passed);
    assert_eq!(texts(&r.details), vec![('E', "No relevant files found in codebase analysis".to_string())]);
}

#[test]
fn constitution_reports_failed_principles() {
    let mut p = plan(&[], &[]);
    p.constitution_check.dry_principle = PrincipleCheckResult { passed: false, note: Some("duplicated parser".to_string()) };
    p.constitution_check.minimal_scope = PrincipleCheckResult { passed: false, note: None };
    let q = EvidenceQualityScore { meets_minimum: true, percent: 82 };
    let r = validator().check_constitution_compliance(&p, &q);
    assert_eq!(
        texts(&r.details),
        vec![
            ('I', "Fact-Based verified with 82% evidence quality".to_string()),
            ('E', "DRY: duplicated parser".to_string()),
            ('E', "Minimal Scope: Failed".to_string()),
        ]
    );
    assert!(!r.passed);
    assert_eq!(r.tier, QualityTier::Red);
}

#[test]
fn constitution_needs_evidence_behind_fact_based_claim() {
    let p = plan(&[], &[]);
    let weak = EvidenceQualityScore { meets_minimum: false, percent: 35 };
    let r = validator().check_constitution_compliance(&p, &weak);
    assert_eq!(
        texts(&r.details),
        vec![('E', "Fact-Based claim not verified: evidence quality 35% insufficient".to_string())]
    );
    assert!(!r.passed);
    let strong = EvidenceQualityScore { meets_minimum: true, percent: 90 };
    let r = validator().check_constitution_compliance(&p, &strong);
    assert!(r.passed);
    assert_eq!(r.tier, QualityTier::Green);
    assert_eq!(
        texts(&r.details),
        vec![
            ('I', "Fact-Based verified with 90% evidence quality".to_string()),
            ('I', "All constitution principles satisfied".to_string()),
        ]
    );
    let mut unclaimed = plan(&[], &[]);
    unclaimed.constitution_check.fact_based = PrincipleCheckResult { passed: false, note: Some("no sources".to_string()) };
    let r = validator().check_constitution_compliance(&unclaimed, &strong);
    assert_eq!(texts(&r.details), vec![('E', "Fact-Based: no sources".to_string())]);
}
