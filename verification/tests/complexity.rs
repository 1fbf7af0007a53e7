use claude_pilot::complexity::{
    detect_workspace_from_files, directory_distribution, workspace_named_by, ComplexityExample, ComplexityExampleStore, WorkspaceDetectionConfidence, WorkspaceType,
};
use claude_pilot::tier::ComplexityTier;
use std::cmp::Ordering;

#[test]
fn complexity_test_complexity_tier() {
    assert!(ComplexityTier::Trivial.is_trivial());
    assert!(!ComplexityTier::Trivial.needs_planning());

    assert!(ComplexityTier::Simple.is_simple());
    assert!(!ComplexityTier::Simple.needs_planning());

    assert!(!ComplexityTier::Complex.is_simple());
    assert!(ComplexityTier::Complex.needs_planning());
}

#[test]
fn complexity_test_complexity_tier_ordering() {
    assert!(ComplexityTier::Trivial < ComplexityTier::Simple);
    assert!(ComplexityTier::Simple < ComplexityTier::Complex);
}

#[test]
fn tests_test_complexity_tier() {
    assert!(ComplexityTier::Trivial.is_trivial());
    assert!(!ComplexityTier::Trivial.needs_planning());

    assert!(ComplexityTier::Simple.is_simple());
    assert!(!ComplexityTier::Simple.needs_planning());

    assert!(!ComplexityTier::Complex.is_simple());
    assert!(ComplexityTier::Complex.needs_planning());
}

#[test]
fn tests_test_complexity_tier_ordering() {
    assert!(ComplexityTier::Trivial < ComplexityTier::Simple);
    assert!(ComplexityTier::Simple < ComplexityTier::Complex);
}

#[test]
fn tier_order_is_total_and_by_rank() {
    let tiers = [ComplexityTier::Trivial, ComplexityTier::Simple, ComplexityTier::Complex];
    for a in tiers {
        for b in tiers {
            let expected = a.rank().cmp(&b.rank());
            assert_eq!(a.partial_cmp(&b), Some(expected));
            assert_eq!(a.partial_cmp(&b) == Some(Ordering::Equal), a == b);
        }
    }
    assert_eq!(ComplexityTier::Complex.rank(), 2);
}

fn example(desc: &str, est: ComplexityTier, act: ComplexityTier, files: usize) -> ComplexityExample {
    ComplexityExample {
        description: desc.to_string(),
        estimated_tier: est,
        actual_tier: act,
        files_affected: files,
        reasoning: String::new(),
    }
}

#[test]
fn example_line_format() {
    let e = example("Fix typo in README", ComplexityTier::Trivial, ComplexityTier::Trivial, 1);
    assert!(e.was_correct());
    assert_eq!(e.format_for_llm(), "- \"Fix typo in README\" → TRIVIAL (1 files)");
    assert_eq!(e.format_for_prompt(), e.format_for_llm());
    let long = "a".repeat(70);
    let e = example(&long, ComplexityTier::Simple, ComplexityTier::Complex, 12);
    assert!(!e.was_correct());
    assert_eq!(e.format_for_llm(), format!("- \"{}\" → COMPLEX (12 files)", "a".repeat(60)));
}

#[test]
fn example_truncation_keeps_whole_characters() {
    let desc = format!("{}é", "a".repeat(59));
    let e = example(&desc, ComplexityTier::Simple, ComplexityTier::Simple, 3);
    assert_eq!(e.format_for_llm(), format!("- \"{}\" → SIMPLE (3 files)", "a".repeat(59)));
}

#[test]
fn store_selects_correct_examples_per_tier() {
    let store = ComplexityExampleStore::new("/tmp/pilot").with_max_examples(1);
    assert_eq!(store.examples_file(), "/tmp/pilot/complexity_examples.jsonl");
    let examples = vec![
        example("c1", ComplexityTier::Complex, ComplexityTier::Complex, 9),
        example("t-wrong", ComplexityTier::Simple, ComplexityTier::Trivial, 1),
        example("t1", ComplexityTier::Trivial, ComplexityTier::Trivial, 1),
        example("t2", ComplexityTier::Trivial, ComplexityTier::Trivial, 1),
        example("s1", ComplexityTier::Simple, ComplexityTier::Simple, 2),
    ];
    let selected = store.select_examples(&examples);
    let names: Vec<&str> = selected.iter().map(|e| e.description.as_str()).collect();
    assert_eq!(names, vec!["t1", "s1", "c1"]);

    let section = store.format_examples_section(&examples);
    assert_eq!(
        section,
        "\n## Project-Specific Examples\n\n**TRIVIAL** (from this project):\n- \"t1\" → TRIVIAL (1 files)\n\n**SIMPLE** (from this project):\n- \"s1\" → SIMPLE (2 files)\n\n**COMPLEX** (from this project):\n- \"c1\" → COMPLEX (9 files)\n"
    );
}

#[test]
fn store_default_and_empty_section() {
    let store = ComplexityExampleStore::new("pilot");
    assert_eq!(store.examples_file(), "pilot/complexity_examples.jsonl");
    let examples = vec![example("x", ComplexityTier::Simple, ComplexityTier::Complex, 1)];
    assert!(store.select_examples(&examples).is_empty());
    assert_eq!(store.format_examples_section(&examples), "");
    let many: Vec<ComplexityExample> =
        (0..5).map(|i| example(&format!("s{}", i), ComplexityTier::Simple, ComplexityTier::Simple, i)).collect();
    assert_eq!(store.select_examples(&many).len(), 3);
}

#[test]
fn workspace_type_descriptions() {
    assert_eq!(WorkspaceType::Unknown.detection_confidence(), WorkspaceDetectionConfidence::Heuristic);
    assert_eq!(WorkspaceType::CargoWorkspace.detection_confidence(), WorkspaceDetectionConfidence::ManifestVerified);
    assert_eq!(
        WorkspaceType::CargoWorkspace.format_for_llm(),
        "CargoWorkspace workspace (verified via manifest file)"
    );
    assert_eq!(
        WorkspaceType::Unknown.format_for_llm(),
        "Unknown monorepo structure (detected via directory patterns - package count may be inaccurate)"
    );
}

#[test]
fn workspace_detected_from_root_marker_files() {
    let files = |v: &[&str]| v.iter().map(|s| s.to_string()).collect::<Vec<String>>();
    assert_eq!(detect_workspace_from_files(&files(&["src/main.rs", "Turbo.json"])), Some(WorkspaceType::Turborepo));
    assert_eq!(detect_workspace_from_files(&files(&["tools/WORKSPACE", "nx.json"])), Some(WorkspaceType::BazelBuck));
    assert_eq!(detect_workspace_from_files(&files(&["a/b/lerna.json", "src/lib.rs"])), None);
    assert_eq!(detect_workspace_from_files(&files(&["go.work"])), Some(WorkspaceType::GoWorkspace));
    assert_eq!(detect_workspace_from_files(&files(&[])), None);
    assert_eq!(workspace_named_by("pnpm-workspace.yaml"), Some(WorkspaceType::PnpmWorkspace));
    assert_eq!(workspace_named_by("PNPM-WORKSPACE.YAML"), None);
    assert_eq!(workspace_named_by("workspace.bazel"), Some(WorkspaceType::BazelBuck));
}

#[test]
fn directory_distribution_counts_top_level_dirs() {
    let mut paths: Vec<String> = (0..15).map(|i| format!("src/module_a/file{}.rs", i)).collect();
    paths.extend((0..10).map(|i| format!("tests/file{}.rs", i)));
    paths.push("README.md".to_string());
    let dist = directory_distribution(&paths);
    assert_eq!(
        dist,
        vec![("src/".to_string(), 15), ("tests/".to_string(), 10), ("README.md/".to_string(), 1)]
    );
    assert!(directory_distribution(&vec![]).is_empty());
    let tie = directory_distribution(&vec!["b/x".to_string(), "a/y".to_string()]);
    assert_eq!(tie.len(), 2);
    assert!(tie.iter().all(|(_, n)| *n == 1));
}

#[test]
fn examples_section_lists_each_selected_example_on_its_own_line() {
    let store = ComplexityExampleStore::new("pilot").with_max_examples(2);
    let examples = vec![
        example("s1", ComplexityTier::Simple, ComplexityTier::Simple, 2),
        example("c1", ComplexityTier::Complex, ComplexityTier::Complex, 7),
        example("t1", ComplexityTier::Trivial, ComplexityTier::Trivial, 1),
        example("s2", ComplexityTier::Simple, ComplexityTier::Simple, 3),
        example("s3", ComplexityTier::Simple, ComplexityTier::Simple, 4),
    ];
    let selected = store.select_examples(&examples);
    let section = store.format_examples_section(&examples);
    assert!(section.starts_with("\n## Project-Specific Examples\n\n"));
    let lines: Vec<&str> = section.lines().collect();
    let mut last = 0;
    for e in &selected {
        let line = e.format_for_prompt();
        let at = lines.iter().position(|l| *l == line).unwrap();
        assert!(at > last);
        last = at;
    }
    assert_eq!(selected.len(), 4);
    let trivial = section.find("**TRIVIAL**").unwrap();
    let simple = section.find("**SIMPLE**").unwrap();
    let complex = section.find("**COMPLEX**").unwrap();
    assert!(trivial < simple && simple < complex);
    assert!(!section.contains("s3"));
}
