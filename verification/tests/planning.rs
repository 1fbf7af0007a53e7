use claude_pilot::agent::{fallback_strategy, is_token_overflow_error, AgentConfig, ModelConfig, PilotError, PlanAgent, ResourceStrategy};
use claude_pilot::artifacts::{
    ConstitutionCheck, PlanArtifact, PlannedTask, PrincipleCheckResult, ProjectStructure, RiskAssessment, SpecArtifact,
    StructureType, TaskPhase, TasksArtifact, TechnicalContext,
};
use claude_pilot::domain::{IsolationMode, RiskLevel};
use claude_pilot::evidence::{ModuleTestMapping, TestStructure};
use claude_pilot::mission::{AgentType, Mission, MissionState, TaskStatus};
use claude_pilot::planning::{
    default_stories, ChunkedPlanner, ChunkedPlanningConfig, PlanningOrchestrator, SpecificationAgent, TaskDecomposer,
    TaskDecompositionConfig,
};

fn config() -> AgentConfig {
    AgentConfig {
        timeout_secs: 600,
        planning_timeout_secs: 0,
        max_sdk_iterations: 50,
        plugin_dirs: vec!["plugins".to_string(), "/abs/plugins".to_string()],
        planning_model: ModelConfig { model_id: "planner".to_string(), context_window: 200000, extended_context: true },
    }
}

#[test]
fn plan_agent_settings() {
    let a = PlanAgent::new("/work", &config()).unwrap();
    assert_eq!(a.context_window(), 200000);
    assert!(a.has_extended_context());
    assert_eq!(a.effective_timeout(), 600);
    let mut c = config();
    c.planning_timeout_secs = 30;
    assert_eq!(PlanAgent::new("/work", &c).unwrap().effective_timeout(), 30);
}

#[test]
fn token_overflow_detection_and_fallback() {
    let overflow = PilotError::Planning("API error 400: too many token".to_string());
    assert!(is_token_overflow_error(&overflow));
    assert!(is_token_overflow_error(&PilotError::Planning("prompt is too long".to_string())));
    assert!(!is_token_overflow_error(&PilotError::Planning("error 400".to_string())));
    assert!(!is_token_overflow_error(&PilotError::TaskDecomposition("prompt is too long".to_string())));
    assert_eq!(fallback_strategy(&overflow, ResourceStrategy::Full), Some(ResourceStrategy::Minimal));
    assert_eq!(fallback_strategy(&overflow, ResourceStrategy::Minimal), None);
    assert_eq!(fallback_strategy(&PilotError::Planning("x".to_string()), ResourceStrategy::Full), None);
}

#[test]
fn default_spec_restates_description() {
    let agent = SpecificationAgent::with_config("/work", &config()).unwrap();
    let long = "x".repeat(80);
    let spec = agent.create_default_spec(&long);
    assert_eq!(spec.user_stories.len(), 1);
    assert_eq!(spec.user_stories[0].title, "x".repeat(50));
    assert_eq!(spec.requirements[0].description, format!("System MUST {}", long));
    assert!(spec.has_clarifications());
    assert_eq!(spec.clarifications[0].options.len(), 2);
    assert_eq!(spec.success_criteria, vec!["Feature works as expected".to_string()]);
}

#[test]
fn resolve_clarification_marks_first_match() {
    let agent = SpecificationAgent::with_config("/work", &config()).unwrap();
    let mut spec = agent.create_default_spec("Add login");
    assert!(!SpecificationAgent::resolve_clarification(&mut spec, "C9", "no"));
    assert!(!spec.clarifications[0].resolved);
    assert!(SpecificationAgent::resolve_clarification(&mut spec, "C1", "Minimal"));
    assert!(spec.clarifications[0].resolved);
    assert_eq!(spec.clarifications[0].answer.as_deref(), Some("Minimal"));
    assert!(!spec.has_clarifications());
}

fn task(id: &str, deps: &[&str], files: &[&str]) -> PlannedTask {
    PlannedTask {
        id: id.to_string(),
        description: format!("Do {}", id),
        user_story: None,
        parallel: false,
        dependencies: deps.iter().map(|s| s.to_string()).collect(),
        affected_files: files.iter().map(|s| s.to_string()).collect(),
        test_patterns: vec!["cargo test".to_string()],
    }
}

fn phases(list: Vec<(&str, Vec<PlannedTask>)>) -> TasksArtifact {
    TasksArtifact {
        phases: list
            .into_iter()
            .map(|(name, ts)| TaskPhase {
                id: name.to_string(),
                name: name.to_string(),
                purpose: String::new(),
                tasks: ts,
                checkpoint: None,
            })
            .collect(),
    }
}

#[test]
fn mission_tasks_carry_phase_and_fields() {
    let d = TaskDecomposer::new("/work", &config(), &TaskDecompositionConfig::default()).unwrap();
    let t = phases(vec![("Setup", vec![task("T1", &[], &["a.rs"])]), ("Build", vec![task("T2", &["T1"], &[])])]);
    let mt = d.to_mission_tasks(&t);
    assert_eq!(mt.len(), 2);
    assert_eq!(mt[0].id, "T1");
    assert_eq!(mt[0].phase.as_deref(), Some("Setup"));
    assert_eq!(mt[0].affected_files, vec!["a.rs".to_string()]);
    assert_eq!(mt[1].phase.as_deref(), Some("Build"));
    assert_eq!(mt[1].dependencies, vec!["T1".to_string()]);
    assert_eq!(mt[1].agent_type, AgentType::Coder);
    assert_eq!(mt[1].status, TaskStatus::Pending);
    assert_eq!(mt[1].test_patterns, vec!["cargo test".to_string()]);
}

#[test]
fn test_pattern_guidance() {
    let d = TaskDecomposer::new("/work", &config(), &TaskDecompositionConfig::default()).unwrap();
    let empty = TestStructure { file_patterns: vec![], test_directories: vec!["tests".to_string()], module_test_mapping: vec![], framework: None };
    assert_eq!(d.build_test_pattern_guidance(&empty), "");
    let mapping = |s: &str| ModuleTestMapping { source_file: s.to_string(), test_files: vec![format!("{}_test", s), "all".to_string()] };
    let ts = TestStructure {
        file_patterns: vec!["*_test.rs".to_string(), "tests/*.rs".to_string()],
        test_directories: vec![],
        module_test_mapping: vec![mapping("a"), mapping("b"), mapping("c"), mapping("d")],
        framework: Some("cargo".to_string()),
    };
    assert_eq!(
        d.build_test_pattern_guidance(&ts),
        "\n\n**Test Pattern Examples** (use these patterns for test_patterns field):\n- Framework: cargo\n- File patterns: *_test.rs, tests/*.rs\n- a → a_test, all\n- b → b_test, all\n- c → c_test, all\n"
    );
}

fn plan(risk: RiskLevel, isolation: IsolationMode) -> PlanArtifact {
    let ok = || PrincipleCheckResult { passed: true, note: None };
    PlanArtifact {
        summary: String::new(),
        technical_context: TechnicalContext {
            language: String::new(),
            primary_dependencies: vec![],
            storage: None,
            testing: String::new(),
            target_platform: String::new(),
        },
        project_structure: ProjectStructure { structure_type: StructureType::Monorepo, affected_paths: vec![], new_paths: vec![] },
        constitution_check: ConstitutionCheck {
            fact_based: ok(),
            code_consistency: ok(),
            dry_principle: ok(),
            work_verification: ok(),
            minimal_scope: ok(),
            intellectual_honesty: ok(),
        },
        risk_assessment: RiskAssessment {
            overall_risk: risk,
            factors: vec![],
            recommended_isolation: isolation,
            rollback_strategy: String::new(),
        },
    }
}

#[test]
fn isolation_escalates_for_cross_package_and_high_risk() {
    let o = PlanningOrchestrator::new("/work", false, &config(), TaskDecompositionConfig::default()).unwrap();
    let single = phases(vec![("A", vec![task("T1", &[], &["api/a.rs", "src/x.rs", "api/b.rs", "top.rs"])])]);
    let cross = phases(vec![("A", vec![task("T1", &[], &["api/a.rs"]), task("T2", &[], &["web/b.rs"])])]);
    assert!(!o.is_cross_package_change(&single));
    assert!(o.is_cross_package_change(&cross));
    assert_eq!(o.determine_isolation(&plan(RiskLevel::Low, IsolationMode::Auto), &single), IsolationMode::Auto);
    assert_eq!(o.determine_isolation(&plan(RiskLevel::Low, IsolationMode::Auto), &cross), IsolationMode::Branch);
    assert_eq!(o.determine_isolation(&plan(RiskLevel::Medium, IsolationMode::Branch), &cross), IsolationMode::Worktree);
    assert_eq!(o.determine_isolation(&plan(RiskLevel::High, IsolationMode::Auto), &single), IsolationMode::Worktree);
    assert_eq!(o.executor().context_window(), 200000);
    let _ = o.spec_agent();
    let _ = o.task_decomposer();
    let _ = o.validator();
}

#[test]
fn chunked_planner_merges_and_reports_missing_dependencies() {
    let cfg = ChunkedPlanningConfig { min_phases: 2, max_phases: 5, max_stories_per_phase: 3 };
    let p = ChunkedPlanner::new("/work", &config(), TaskDecompositionConfig::default(), cfg).unwrap();
    let t = phases(vec![("A", vec![task("T1", &["T9"], &[])]), ("B", vec![task("T2", &["T1"], &[])])]);
    let missing = p.validate_dependencies(&t);
    assert_eq!(missing.len(), 1);
    assert_eq!(missing[0].task_id, "T1");
    assert_eq!(missing[0].invalid_dep, "T9");

    let agent = SpecificationAgent::with_config("/work", &config()).unwrap();
    let a = agent.create_default_spec("one");
    let b = agent.create_default_spec("two");
    let merged = p.merge_specs(vec![a, b]);
    assert_eq!(merged.user_stories.len(), 2);
    assert_eq!(merged.user_stories[1].description, "two");
    assert_eq!(merged.requirements.len(), 2);
    assert_eq!(merged.clarifications.len(), 2);
    assert_eq!(merged.success_criteria.len(), 2);
    let none: SpecArtifact = p.merge_specs(vec![]);
    assert!(none.user_stories.is_empty());
    assert_eq!(default_stories(), 2);
}

#[test]
fn decomposition_prompt_layout() {
    let d = TaskDecomposer::new("/work", &config(), &TaskDecompositionConfig::default()).unwrap();
    let spec = SpecArtifact { user_stories: vec![], requirements: vec![], clarifications: vec![], success_criteria: vec![] };
    let mut p = plan(RiskLevel::Low, IsolationMode::Auto);
    p.project_structure.affected_paths = vec!["src/a.rs".to_string(), "src/b.rs".to_string()];
    p.project_structure.new_paths = vec!["src/c.rs".to_string()];
    let ts = TestStructure { file_patterns: vec![], test_directories: vec![], module_test_mapping: vec![], framework: None };
    let none: Vec<String> = vec![];
    let prompt = d.build_prompt(&spec, &p, &none, &vec!["builder".to_string(), "newtype".to_string()], &ts, None);
    let expected_head = format!(
        "## Task Decomposition\n\nBreak down the implementation into phases and tasks.\n\n**Specification**:\n{}\n\n**Implementation Plan**:\n{}\n\n**Evidence-Backed Files**: No specific files (use plan paths)\n\n**Plan Affected Paths** (existing): src/a.rs, src/b.rs\n\n**Plan New Paths** (to create): src/c.rs\n\n**Existing Patterns**: builder, newtype\n\n---\n\n## Requirements\n\n1. **Phases**",
        spec.to_markdown(),
        p.to_markdown()
    );
    assert!(prompt.starts_with(&expected_head));
    assert!(prompt.ends_with("5. **Output Size**: Keep descriptions concise to avoid exceeding output limits"));
    let parallel_line = ["\n   - parallel: Whether this ", "task can run in parallel with others\n   - dependencies:"].concat();
    assert!(prompt.contains(&parallel_line));
    let files = vec!["src/x.rs".to_string(), "src/y.rs".to_string()];
    let retry = d.build_prompt(&spec, &p, &files, &none, &ts, Some("- Story 'US1' has 1 tasks"));
    assert!(retry.contains("**Evidence-Backed Files**: src/x.rs, src/y.rs\n"));
    assert!(retry.ends_with("\n\n## Quality Feedback\n\n- Story 'US1' has 1 tasks\n\nFix these issues:"));
}

#[test]
fn specification_and_plan_prompts() {
    let agent = SpecificationAgent::with_config("/work", &config()).unwrap();
    let p = agent.build_spec_prompt("Add login", "# Evidence Report\n");
    assert!(p.starts_with(
        "## Specification Creation Task\n\nCreate a feature specification for the following request.\n\n**User Request**: Add login\n\n**Evidence from Codebase Analysis**:\n# Evidence Report\n\n\n---\n\nCreate a specification with:\n\n1. **User Stories**"
    ));
    assert!(p.ends_with("4. **Success Criteria** (list of measurable outcomes)\n\nFollow the evidence to align with existing patterns in the codebase."));

    let orch = PlanningOrchestrator::new("/work", false, &config(), TaskDecompositionConfig::default()).unwrap();
    let spec = SpecArtifact { user_stories: vec![], requirements: vec![], clarifications: vec![], success_criteria: vec![] };
    let plan_prompt = orch.build_plan_prompt(&spec, "EVIDENCE");
    let expected = format!(
        "## Implementation Planning\n\nCreate an implementation plan based on the specification.\n\n**Specification**:\n{}\n\n**Evidence**:\nEVIDENCE\n\nRequirements:\n- Align with existing patterns from evidence\n- Adhere to minimal scope\n- Provide clear risk assessment\n- Include practical rollback strategy\n\n**Project Structure**:\n- `affected_paths`: List existing files that will be modified\n- `new_paths`: List NEW files that will be CREATED (important for validation)",
        spec.to_markdown()
    );
    assert_eq!(plan_prompt, expected);
}

#[test]
fn planning_outcome_fills_mission() {
    let orch = PlanningOrchestrator::new("/work", false, &config(), TaskDecompositionConfig::default()).unwrap();
    let t = phases(vec![
        ("Setup", vec![task("A", &[], &["src/a.rs"]), task("B", &["A"], &[])]),
        ("Polish", vec![task("C", &["B"], &["README.md"])]),
    ]);
    let mut m = Mission {
        id: "m-9".to_string(),
        description: "Ship it".to_string(),
        status: MissionState::Planning,
        isolation: IsolationMode::Auto,
        branch: None,
        tasks: vec![],
        phases: vec![],
        learnings: vec![],
    };
    orch.apply_to_mission(&mut m, &t, IsolationMode::Worktree);
    assert_eq!(m.id, "m-9");
    assert_eq!(m.isolation, IsolationMode::Worktree);
    assert_eq!(m.tasks.len(), 3);
    assert_eq!(m.tasks[2].id, "C");
    assert_eq!(m.tasks[2].phase.as_deref(), Some("Polish"));
    assert_eq!(m.phases.len(), 2);
    assert_eq!(m.phases[0].task_ids, vec!["A".to_string(), "B".to_string()]);
    assert_eq!(m.phases[1].description, t.phases[1].purpose);
    assert_eq!(m.phases[1].name, t.phases[1].name);
}
