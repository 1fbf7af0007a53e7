use claude_pilot::evidence::{
    merge_dependencies, merge_unique, new_key_positions, CallDirection, Dependency, EvidenceCompleteness, EvidenceSource,
    SourceConfidenceCategory,
};

#[test]
fn completeness_note() {
    assert_eq!(EvidenceCompleteness::complete().format_for_llm(), None);
    let mut c = EvidenceCompleteness::truncated(1, 8, "limit reached");
    c.add_warning("timeout");
    assert_eq!(
        c.format_for_llm().unwrap(),
        "⚠️ INCOMPLETE EVIDENCE (12% coverage): Only 1 of 8 files analyzed. Proceed with caution - verify assumptions and be conservative with changes. Issues: limit reached; timeout"
    );
    let c = EvidenceCompleteness::truncated(3, 8, "x");
    assert!(c.format_for_llm().unwrap().starts_with("⚠️ INCOMPLETE EVIDENCE (38% coverage): Only 3 of 8"));
    let c = EvidenceCompleteness::truncated(10, 4, "x");
    assert!(c.format_for_llm().unwrap().starts_with("⚠️ INCOMPLETE EVIDENCE (100% coverage)"));
    let c = EvidenceCompleteness::truncated(0, 0, "x");
    assert!(c.format_for_llm().unwrap().starts_with("⚠️ INCOMPLETE EVIDENCE (100% coverage)"));
    let c = EvidenceCompleteness::truncated(2, 3, "x");
    assert!(c.format_for_llm().unwrap().starts_with("⚠️ INCOMPLETE EVIDENCE (67% coverage)"));
}

#[test]
fn source_descriptions() {
    let git = EvidenceSource::GitHistory { commit: Some("0123456789abcdef".to_string()) };
    assert_eq!(git.description(), "git history (commit: 01234567)");
    assert_eq!(EvidenceSource::GitHistory { commit: Some("abc".to_string()) }.description(), "git history (commit: abc)");
    assert_eq!(EvidenceSource::GitHistory { commit: None }.description(), "git history");
    let calls = EvidenceSource::LspCallHierarchy {
        symbol: "run".to_string(),
        direction: CallDirection::Incoming,
        call_count: 4,
    };
    assert_eq!(calls.description(), "LSP callers: run (4 calls)");
    let search = EvidenceSource::LspSymbolSearch { query: "Foo".to_string(), symbol_kind: Some("struct".to_string()) };
    assert_eq!(search.description(), "LSP symbol search: 'Foo' (struct)");
    let diag = EvidenceSource::LspDiagnostics { file: "a.rs".to_string(), error_count: 1, warning_count: 2 };
    assert_eq!(diag.description(), "LSP diagnostics: a.rs (1 errors, 2 warnings)");
    let def = EvidenceSource::LspDefinition {
        location: "x".to_string(),
        target_file: "b.rs".to_string(),
        target_line: 12,
    };
    assert_eq!(def.description(), "LSP definition: b.rs:12");
    let ast = EvidenceSource::AstSearch { pattern: "fn $A".to_string(), language: "rust".to_string(), match_count: 3 };
    assert_eq!(ast.description(), "AST search: 'fn $A' in rust (3 matches)");
    assert_eq!(EvidenceSource::Unknown.description(), "unknown");
}

#[test]
fn source_categories() {
    let ast = EvidenceSource::AstSearch { pattern: "p".to_string(), language: "rust".to_string(), match_count: 0 };
    assert!(ast.is_semantic() && ast.is_ast_based() && !ast.is_lsp_based());
    assert_eq!(ast.confidence_category(), SourceConfidenceCategory::Semantic);
    let hover = EvidenceSource::LspHover { location: "l".to_string() };
    assert!(hover.is_lsp_based());
    assert_eq!(hover.confidence_category(), SourceConfidenceCategory::ToolVerified);
    assert_eq!(EvidenceSource::FilesystemStructure.confidence_category(), SourceConfidenceCategory::Heuristic);
    assert!(!EvidenceSource::UserProvided.is_verifiable());
    assert!(EvidenceSource::DependencyAnalysis.is_verifiable());
    assert_eq!(
        EvidenceSource::UserProvided.format_confidence_for_llm(),
        "[UNVERIFIED - low confidence] user provided"
    );
    assert_eq!(SourceConfidenceCategory::ToolVerified.label(), "TOOL-VERIFIED");
    assert_eq!(SourceConfidenceCategory::Heuristic.level_hint(), "moderate");
    assert_eq!(
        SourceConfidenceCategory::Semantic.format_for_llm(),
        "Compiler/language-server verified. Highly reliable unless LSP has known issues."
    );
}

fn strings(v: &[&str]) -> Vec<String> {
    v.iter().map(|s| s.to_string()).collect()
}

#[test]
fn merging_lists_skips_what_is_already_there() {
    let mut patterns = strings(&["builder", "newtype"]);
    merge_unique(&mut patterns, &strings(&["newtype", "visitor", "visitor", "state"]));
    assert_eq!(patterns, strings(&["builder", "newtype", "visitor", "state"]));

    let positions = new_key_positions(&strings(&["src/a.rs"]), &strings(&["src/b.rs", "src/a.rs", "src/b.rs", "src/c.rs"]));
    assert_eq!(positions, vec![0, 3]);

    let dep = |n: &str, v: &str| Dependency { name: n.to_string(), version: v.to_string(), purpose: String::new() };
    let mut deps = vec![dep("serde", "1")];
    merge_dependencies(&mut deps, &vec![dep("serde", "2"), dep("tokio", "1"), dep("tokio", "2")]);
    let got: Vec<(String, String)> = deps.iter().map(|d| (d.name.clone(), d.version.clone())).collect();
    assert_eq!(got, vec![("serde".to_string(), "1".to_string()), ("tokio".to_string(), "1".to_string())]);
}

#[test]
fn merged_completeness_is_the_worse_one() {
    let mut a = EvidenceCompleteness::complete();
    let mut b = EvidenceCompleteness::truncated(10, 20, "too many files");
    b.add_warning("timeout");
    a.absorb(b);
    assert!(!a.is_complete);
    assert_eq!(a.warnings, strings(&["too many files", "timeout"]));
    let mut c = EvidenceCompleteness::complete();
    c.absorb(EvidenceCompleteness::complete());
    assert!(c.is_complete);
    assert!(c.warnings.is_empty());
}
