use claude_pilot::evidence::{Dependency, EvidenceSource, SuggestedDependency};
use claude_pilot::lifecycle::Timestamp;
use claude_pilot::report::{EvidenceBudget, EvidenceDigest, FileEvidence, KnowledgeItem, QualityFigures};

fn file(path: &str, source: EvidenceSource, key: u64) -> FileEvidence {
    FileEvidence { path: path.to_string(), relevance: format!("about {}", path), source, confidence_key: key }
}

fn item(name: &str, pct: u64, key: u64) -> KnowledgeItem {
    KnowledgeItem { name: name.to_string(), relevance: "useful".to_string(), confidence_pct: pct, confidence_key: key }
}

fn digest() -> EvidenceDigest {
    EvidenceDigest {
        gathered_at: Timestamp { secs: 0, nanos: 0 },
        quality: QualityFigures {
            quality_tenths: 725,
            quality_pct: 73,
            total_items: 4,
            verifiable_items: 3,
            verifiable_pct: 75,
            avg_confidence_pct: 80,
            source_breakdown: vec![("LSP".to_string(), 2)],
            low_confidence_items: vec!["File: b.rs".to_string()],
        },
        files: vec![
            file("a.rs", EvidenceSource::FilesystemStructure, 5),
            file("b.rs", EvidenceSource::LspHover { location: "b.rs:1".to_string() }, 9),
        ],
        patterns: vec!["builder".to_string()],
        conventions: vec!["snake_case".to_string()],
        affected_areas: vec!["src".to_string()],
        dependencies: vec![Dependency { name: "serde".to_string(), version: "1".to_string(), purpose: String::new() }],
        suggested: vec![SuggestedDependency { name: "rand".to_string(), reason: "ids".to_string(), alternatives: vec![] }],
        skills: vec![item("low", 20, 1), item("high", 90, 8)],
        rules: vec![],
        similar_patterns: vec![],
    }
}

fn budget() -> EvidenceBudget {
    EvidenceBudget {
        min_budget_threshold: 10,
        file_budget_percent: 40,
        pattern_budget_percent: 20,
        dependency_budget_percent: 20,
        knowledge_budget_percent: 20,
        max_dependencies_display: 5,
        min_confidence_key: 5,
        token_char_ratio: 4,
        markdown_truncation_buffer: 10,
    }
}

#[test]
fn full_report_layout() {
    let d = digest();
    let r = d.to_markdown().unwrap();
    assert_eq!(
        r,
        "# Evidence Report\n\n**Gathered At**: 1970-01-01 00:00:00 UTC\n\n## Evidence Quality\n\n\
- **Quality Score**: 72.5%\n- **Total Items**: 4\n- **Verifiable**: 3 (75%)\n- **Avg Confidence**: 80%\n\n\
### Evidence Sources\n\n- LSP: 2 items\n\n### Low Confidence Items\n\n- ⚠️ File: b.rs\n\n\
## Codebase Analysis\n\n### Relevant Files\n\n\
- `a.rs` - about a.rs [[HEURISTIC - moderate confidence] filesystem structure]\n\
- `b.rs` - about b.rs [[TOOL-VERIFIED - moderate-high confidence] LSP hover: b.rs:1]\n\
\n### Existing Patterns\n\n- builder\n\n### Conventions\n\n- snake_case\n\n### Affected Areas\n\n- src\n\
\n## Dependency Analysis\n\n### Current Dependencies\n\n- serde (1)\n\n### Suggested Additions\n\n- rand - ids\n\
\n## Prior Knowledge\n\n### Relevant Skills\n\n- low - useful (confidence: 20%)\n- high - useful (confidence: 90%)\n"
    );
    assert_eq!(d.to_markdown_at("then"), r.replace("1970-01-01 00:00:00 UTC", "then"));
}

#[test]
fn budget_summary_orders_and_filters() {
    let d = digest();
    let s = d.to_markdown_with_budget(10_000, &budget(), |t: &str| t.len() / 4);
    assert_eq!(
        s,
        "# Evidence Summary\n\nQuality: 73% | Items: 4 | Confidence: 80%\n\n\
## Key Files\n\n- `b.rs` [TOOL-VERIFIED]\n- `a.rs` [HEURISTIC]\n\
\n## Patterns\n\n- builder\n- snake_case\n\
\n## Dependencies\n\n- serde\n\
\n## Prior Knowledge\n\n- Skill: high (90%)\n"
    );
}

#[test]
fn budget_cut_inside_a_character_is_detected() {
    let mut d = digest();
    d.files[1].path = "éééééé".to_string();
    let estimate = |t: &str| t.len() / 4;
    // The header and the files heading take 77 bytes, then "- `" and the
    // two-byte characters of the path: keeping 81 bytes splits one of them.
    let splitting = EvidenceBudget { markdown_truncation_buffer: 160 - 81, ..budget() };
    assert!(!d.budget_cut_is_clean(40, &splitting, estimate));
    let clean = EvidenceBudget { markdown_truncation_buffer: 160 - 82, ..budget() };
    assert!(d.budget_cut_is_clean(40, &clean, estimate));
    let s = d.to_markdown_with_budget(40, &clean, estimate);
    assert_eq!(s.len(), 82 + "\n\n_(truncated)_".len());
    assert!(s.ends_with("- `é\n\n_(truncated)_"));
}

#[test]
fn budget_summary_notes_truncation_when_little_is_left() {
    let d = digest();
    let s = d.to_markdown_with_budget(20, &budget(), |t: &str| t.len() / 4);
    assert_eq!(
        s,
        "# Evidence Summary\n\nQuality: 73% | Items: 4 | Confidence: 80%\n\n_(Evidence truncated due to token limit)_\n"
    );
}

#[test]
fn budget_summary_omits_files_beyond_their_share() {
    let d = digest();
    // The header costs 15 tokens, leaving 25; files get 10 of them: one line.
    let estimate = |t: &str| t.len() / 4;
    assert!(d.budget_cut_is_clean(40, &budget(), estimate));
    let s = d.to_markdown_with_budget(40, &budget(), estimate);
    assert!(s.contains("## Key Files\n\n- `b.rs` [TOOL-VERIFIED]\n- _(more files omitted)_\n"));
    assert!(!s.contains("a.rs"));
    // Still over 40 tokens, it is cut to 40 * 4 - 10 bytes and marked.
    assert!(s.ends_with("\n\n_(truncated)_"));
    assert_eq!(s.len(), 150 + "\n\n_(truncated)_".len());
}
