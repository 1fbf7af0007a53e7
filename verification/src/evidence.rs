//! Evidence bookkeeping: how complete a gathering run was, where each item
//! of evidence came from, and how far such a source can be trusted.

use vstd::prelude::*;
use crate::paths::join;
use crate::text::{byte_prefix, cut_on_boundary, decimal, push_decimal, push_str, truncate_at_boundary};
use crate::paths::join_strings;

verus! {

broadcast use vstd::string::group_string_axioms;

/// Whether evidence gathering saw everything it was asked to look at.
#[derive(Debug, Clone, Default)]
pub struct EvidenceCompleteness {
    pub is_complete: bool,
    pub files_found: usize,
    pub files_limit: usize,
    pub warnings: Vec<String>,
}

/// Share of the file limit that was analyzed, in whole percent, capped at
/// one hundred and rounded half to even, as `{:.0}` prints it.
pub open spec fn coverage_percent(found: nat, limit: nat) -> nat {
    if limit == 0 || found >= limit {
        100
    } else {
        let q = (100 * found) / limit;
        let r = (100 * found) % limit;
        if 2 * r > limit || (2 * r == limit && q % 2 == 1) {
            q + 1
        } else {
            q
        }
    }
}

/// The caution note handed to the model when evidence is incomplete,
/// opening with a warning sign.
pub open spec fn incomplete_notice(found: nat, limit: nat, warnings: Seq<Seq<char>>) -> Seq<char> {
    "⚠️ INCOMPLETE EVIDENCE ("@ + decimal(coverage_percent(found, limit)) + "% coverage): Only "@
        + decimal(found) + " of "@ + decimal(limit)
        + " files analyzed. Proceed with caution - verify assumptions and be conservative with changes. Issues: "@
        + join(warnings, "; "@)
}

/// The coverage figure is a percentage: never above one hundred, and
/// exactly one hundred when every file up to the limit was seen (or there
/// was no limit).
pub proof fn lemma_coverage_bounds(found: nat, limit: nat)
    ensures
        coverage_percent(found, limit) <= 100,
        (limit == 0 || found >= limit) ==> coverage_percent(found, limit) == 100,
        found < limit ==> coverage_percent(found, limit) * limit <= 100 * found + limit,
{
    if limit > 0 && found < limit {
        let q = (100 * found) / limit;
        let r = (100 * found) % limit;
        assert(100 * found == q * limit + r) by (nonlinear_arith)
            requires
                limit > 0,
                q == (100 * found) / limit,
                r == (100 * found) % limit,
        ;
        assert(q < 100) by (nonlinear_arith)
            requires
                limit > 0,
                found < limit,
                q == (100 * found) / limit,
        ;
        assert(0 <= r < limit) by (nonlinear_arith)
            requires
                limit > 0,
                r == (100 * found) % limit,
        ;
        assert((q + 1) * limit == q * limit + limit) by (nonlinear_arith);
    }
}

/// Strings as values.
pub open spec fn string_views(v: Seq<String>) -> Seq<Seq<char>> {
    v.map_values(|s: String| s@)
}

pub(crate) fn coverage_pct(found: usize, limit: usize) -> (p: u64)
    ensures
        p == coverage_percent(found as nat, limit as nat),
{
    if limit == 0 || found >= limit {
        return 100;
    }
    let n: u128 = (found as u128) * 100;
    let l: u128 = limit as u128;
    let q: u128 = n / l;
    let r: u128 = n % l;
    assert(q < 100) by (nonlinear_arith)
        requires
            n < 100 * l,
            l > 0,
            q == n / l,
    ;
    if 2 * r > l || (2 * r == l && q % 2 == 1) {
        (q + 1) as u64
    } else {
        q as u64
    }
}

impl EvidenceCompleteness {
    /// Completeness of a run that saw everything.
    pub fn complete() -> (c: Self)
        ensures
            c.is_complete,
            c.files_found == 0,
            c.files_limit == 0,
            c.warnings@.len() == 0,
    {
        EvidenceCompleteness { is_complete: true, files_found: 0, files_limit: 0, warnings: Vec::new() }
    }

    /// Completeness of a run that stopped at `limit` files after seeing `found`.
    pub fn truncated(found: usize, limit: usize, warning: &str) -> (c: Self)
        ensures
            !c.is_complete,
            c.files_found == found,
            c.files_limit == limit,
            string_views(c.warnings@) == seq![warning@],
    {
        let mut warnings: Vec<String> = Vec::new();
        warnings.push(warning.to_string());
        proof {
            assert(string_views(warnings@) =~= seq![warning@]);
        }
        EvidenceCompleteness { is_complete: false, files_found: found, files_limit: limit, warnings }
    }

    /// Records a gap in the evidence; the run is no longer complete.
    pub fn add_warning(&mut self, warning: &str)
        ensures
            !final(self).is_complete,
            final(self).files_found == old(self).files_found,
            final(self).files_limit == old(self).files_limit,
            string_views(final(self).warnings@) == string_views(old(self).warnings@).push(warning@),
    {
        self.is_complete = false;
        self.warnings.push(warning.to_string());
        proof {
            assert(string_views(self.warnings@) =~= string_views(old(self).warnings@).push(warning@));
        }
    }

    /// The caution note for the model, or `None` when nothing is missing.
    pub fn format_for_llm(&self) -> (r: Option<String>)
        ensures
            match r {
                None => self.is_complete,
                Some(s) => !self.is_complete && s@ == incomplete_notice(
                    self.files_found as nat,
                    self.files_limit as nat,
                    string_views(self.warnings@),
                ),
            },
    {
        if self.is_complete {
            return None;
        }
        let pct = coverage_pct(self.files_found, self.files_limit);
        let mut s = String::new();
        push_str(&mut s, "⚠️ INCOMPLETE EVIDENCE (");
        push_decimal(&mut s, pct);
        push_str(&mut s, "% coverage): Only ");
        push_decimal(&mut s, self.files_found as u64);
        push_str(&mut s, " of ");
        push_decimal(&mut s, self.files_limit as u64);
        push_str(
            &mut s,
            " files analyzed. Proceed with caution - verify assumptions and be conservative with changes. Issues: ",
        );
        let joined = join_strings(&self.warnings, "; ");
        push_str(&mut s, joined.as_str());
        Some(s)
    }
}

/// Direction of a call-hierarchy query.
#[derive(Debug, Clone, Copy, PartialEq, Eq, Structural)]
pub enum CallDirection {
    Incoming,
    Outgoing,
}

/// How far a kind of evidence source can be trusted.
#[derive(Debug, Clone, Copy, PartialEq, Eq, Structural)]
pub enum SourceConfidenceCategory {
    Semantic,
    ToolVerified,
    Heuristic,
    Unverified,
}

pub open spec fn category_label(c: SourceConfidenceCategory) -> Seq<char> {
    match c {
        SourceConfidenceCategory::Semantic => "SEMANTIC"@,
        SourceConfidenceCategory::ToolVerified => "TOOL-VERIFIED"@,
        SourceConfidenceCategory::Heuristic => "HEURISTIC"@,
        SourceConfidenceCategory::Unverified => "UNVERIFIED"@,
    }
}

pub open spec fn category_level(c: SourceConfidenceCategory) -> Seq<char> {
    match c {
        SourceConfidenceCategory::Semantic => "high"@,
        SourceConfidenceCategory::ToolVerified => "moderate-high"@,
        SourceConfidenceCategory::Heuristic => "moderate"@,
        SourceConfidenceCategory::Unverified => "low"@,
    }
}

pub open spec fn category_guidance(c: SourceConfidenceCategory) -> Seq<char> {
    match c {
        SourceConfidenceCategory::Semantic =>
            "Compiler/language-server verified. Highly reliable unless LSP has known issues."@,
        SourceConfidenceCategory::ToolVerified =>
            "Verified by external tools. Reliable for well-maintained projects."@,
        SourceConfidenceCategory::Heuristic =>
            "Pattern-based detection. Reliability varies by project conventions."@,
        SourceConfidenceCategory::Unverified =>
            "No automated verification. Cross-check with other sources recommended."@,
    }
}

impl SourceConfidenceCategory {
    /// Upper-case label of the category.
    pub fn label(&self) -> (s: &'static str)
        ensures
            s@ == category_label(*self),
    {
        match self {
            SourceConfidenceCategory::Semantic => "SEMANTIC",
            SourceConfidenceCategory::ToolVerified => "TOOL-VERIFIED",
            SourceConfidenceCategory::Heuristic => "HEURISTIC",
            SourceConfidenceCategory::Unverified => "UNVERIFIED",
        }
    }

    /// How much confidence the category deserves, in words.
    pub fn level_hint(&self) -> (s: &'static str)
        ensures
            s@ == category_level(*self),
    {
        match self {
            SourceConfidenceCategory::Semantic => "high",
            SourceConfidenceCategory::ToolVerified => "moderate-high",
            SourceConfidenceCategory::Heuristic => "moderate",
            SourceConfidenceCategory::Unverified => "low",
        }
    }

    /// Guidance for the model on how to weigh evidence of this category.
    pub fn format_for_llm(&self) -> (s: String)
        ensures
            s@ == category_guidance(*self),
    {
        let text = match self {
            SourceConfidenceCategory::Semantic =>
                "Compiler/language-server verified. Highly reliable unless LSP has known issues.",
            SourceConfidenceCategory::ToolVerified =>
                "Verified by external tools. Reliable for well-maintained projects.",
            SourceConfidenceCategory::Heuristic =>
                "Pattern-based detection. Reliability varies by project conventions.",
            SourceConfidenceCategory::Unverified =>
                "No automated verification. Cross-check with other sources recommended.",
        };
        text.to_string()
    }
}

/// Where an item of evidence came from.
#[derive(Debug, Clone, Default)]
pub enum EvidenceSource {
    PatternDetection { pattern: String },
    GitHistory { commit: Option<String> },
    DependencyAnalysis,
    FilesystemStructure,
    PriorKnowledge { source_path: String },
    UserProvided,
    LspDefinition { location: String, target_file: String, target_line: u32 },
    LspReferences { symbol: String, reference_count: usize },
    LspCallHierarchy { symbol: String, direction: CallDirection, call_count: usize },
    LspSymbolSearch { query: String, symbol_kind: Option<String> },
    LspHover { location: String },
    LspDiagnostics { file: String, error_count: usize, warning_count: usize },
    LspContext { location: String },
    AstSearch { pattern: String, language: String, match_count: usize },
    #[default]
    Unknown,
}

pub open spec fn direction_word(d: CallDirection) -> Seq<char> {
    match d {
        CallDirection::Incoming => "callers"@,
        CallDirection::Outgoing => "callees"@,
    }
}

/// Whether `description` is defined on `s`: a commit id is shortened to
/// its first eight bytes, which must end on a character boundary.
pub open spec fn describable(s: EvidenceSource) -> bool {
    match s {
        EvidenceSource::GitHistory { commit: Some(c) } => cut_on_boundary(c@, 8),
        _ => true,
    }
}

pub open spec fn source_description(s: EvidenceSource) -> Seq<char> {
    match s {
        EvidenceSource::PatternDetection { pattern } => "pattern detection: "@ + pattern@,
        EvidenceSource::GitHistory { commit } => match commit {
            Some(c) => "git history (commit: "@ + byte_prefix(c@, 8) + ")"@,
            None => "git history"@,
        },
        EvidenceSource::DependencyAnalysis => "dependency analysis"@,
        EvidenceSource::FilesystemStructure => "filesystem structure"@,
        EvidenceSource::PriorKnowledge { source_path } => "prior knowledge: "@ + source_path@,
        EvidenceSource::UserProvided => "user provided"@,
        EvidenceSource::LspDefinition { target_file, target_line, .. } =>
            "LSP definition: "@ + target_file@ + ":"@ + decimal(target_line as nat),
        EvidenceSource::LspReferences { symbol, reference_count } =>
            "LSP references: "@ + symbol@ + " ("@ + decimal(reference_count as nat) + " refs)"@,
        EvidenceSource::LspCallHierarchy { symbol, direction, call_count } =>
            "LSP "@ + direction_word(direction) + ": "@ + symbol@ + " ("@ + decimal(call_count as nat)
                + " calls)"@,
        EvidenceSource::LspSymbolSearch { query, symbol_kind } => match symbol_kind {
            Some(k) => "LSP symbol search: '"@ + query@ + "' ("@ + k@ + ")"@,
            None => "LSP symbol search: '"@ + query@ + "'"@,
        },
        EvidenceSource::LspHover { location } => "LSP hover: "@ + location@,
        EvidenceSource::LspDiagnostics { file, error_count, warning_count } =>
            "LSP diagnostics: "@ + file@ + " ("@ + decimal(error_count as nat) + " errors, "@
                + decimal(warning_count as nat) + " warnings)"@,
        EvidenceSource::LspContext { location } => "LSP context: "@ + location@,
        EvidenceSource::AstSearch { pattern, language, match_count } =>
            "AST search: '"@ + pattern@ + "' in "@ + language@ + " ("@ + decimal(match_count as nat)
                + " matches)"@,
        EvidenceSource::Unknown => "unknown"@,
    }
}

pub open spec fn lsp_based(s: EvidenceSource) -> bool {
    ||| s is LspDefinition
    ||| s is LspReferences
    ||| s is LspCallHierarchy
    ||| s is LspSymbolSearch
    ||| s is LspHover
    ||| s is LspDiagnostics
    ||| s is LspContext
}

pub open spec fn category_of(s: EvidenceSource) -> SourceConfidenceCategory {
    match s {
        EvidenceSource::LspDefinition { .. }
        | EvidenceSource::LspReferences { .. }
        | EvidenceSource::LspCallHierarchy { .. }
        | EvidenceSource::LspDiagnostics { .. }
        | EvidenceSource::LspContext { .. }
        | EvidenceSource::AstSearch { .. } => SourceConfidenceCategory::Semantic,
        EvidenceSource::LspSymbolSearch { .. }
        | EvidenceSource::LspHover { .. }
        | EvidenceSource::GitHistory { .. }
        | EvidenceSource::DependencyAnalysis => SourceConfidenceCategory::ToolVerified,
        EvidenceSource::FilesystemStructure
        | EvidenceSource::PatternDetection { .. }
        | EvidenceSource::PriorKnowledge { .. } => SourceConfidenceCategory::Heuristic,
        EvidenceSource::UserProvided | EvidenceSource::Unknown => SourceConfidenceCategory::Unverified,
    }
}

pub open spec fn confidence_line(s: EvidenceSource) -> Seq<char> {
    "["@ + category_label(category_of(s)) + " - "@ + category_level(category_of(s)) + " confidence] "@
        + source_description(s)
}

fn text_of(a: &str, b: &str) -> (s: String)
    ensures
        s@ == a@ + b@,
{
    let mut s = String::new();
    push_str(&mut s, a);
    push_str(&mut s, b);
    s
}

impl EvidenceSource {
    /// Human-readable account of the source.
    pub fn description(&self) -> (s: String)
        requires
            describable(*self),
        ensures
            s@ == source_description(*self),
    {
        match self {
            EvidenceSource::PatternDetection { pattern } => text_of("pattern detection: ", pattern.as_str()),
            EvidenceSource::GitHistory { commit } => match commit {
                Some(c) => {
                    let mut s = String::new();
                    push_str(&mut s, "git history (commit: ");
                    let p = truncate_at_boundary(c.as_str(), 8);
                    push_str(&mut s, p.as_str());
                    push_str(&mut s, ")");
                    s
                },
                None => "git history".to_string(),
            },
            EvidenceSource::DependencyAnalysis => "dependency analysis".to_string(),
            EvidenceSource::FilesystemStructure => "filesystem structure".to_string(),
            EvidenceSource::PriorKnowledge { source_path } => text_of("prior knowledge: ", source_path.as_str()),
            EvidenceSource::UserProvided => "user provided".to_string(),
            EvidenceSource::LspDefinition { target_file, target_line, .. } => {
                let mut s = text_of("LSP definition: ", target_file.as_str());
                push_str(&mut s, ":");
                push_decimal(&mut s, *target_line as u64);
                s
            },
            EvidenceSource::LspReferences { symbol, reference_count } => {
                let mut s = text_of("LSP references: ", symbol.as_str());
                push_str(&mut s, " (");
                push_decimal(&mut s, *reference_count as u64);
                push_str(&mut s, " refs)");
                s
            },
            EvidenceSource::LspCallHierarchy { symbol, direction, call_count } => {
                let dir = match direction {
                    CallDirection::Incoming => "callers",
                    CallDirection::Outgoing => "callees",
                };
                let mut s = text_of("LSP ", dir);
                push_str(&mut s, ": ");
                push_str(&mut s, symbol.as_str());
                push_str(&mut s, " (");
                push_decimal(&mut s, *call_count as u64);
                push_str(&mut s, " calls)");
                s
            },
            EvidenceSource::LspSymbolSearch { query, symbol_kind } => {
                let mut s = text_of("LSP symbol search: '", query.as_str());
                match symbol_kind {
                    Some(k) => {
                        push_str(&mut s, "' (");
                        push_str(&mut s, k.as_str());
                        push_str(&mut s, ")");
                    },
                    None => {
                        push_str(&mut s, "'");
                    },
                }
                s
            },
            EvidenceSource::LspHover { location } => text_of("LSP hover: ", location.as_str()),
            EvidenceSource::LspDiagnostics { file, error_count, warning_count } => {
                let mut s = text_of("LSP diagnostics: ", file.as_str());
                push_str(&mut s, " (");
                push_decimal(&mut s, *error_count as u64);
                push_str(&mut s, " errors, ");
                push_decimal(&mut s, *warning_count as u64);
                push_str(&mut s, " warnings)");
                s
            },
            EvidenceSource::LspContext { location } => text_of("LSP context: ", location.as_str()),
            EvidenceSource::AstSearch { pattern, language, match_count } => {
                let mut s = text_of("AST search: '", pattern.as_str());
                push_str(&mut s, "' in ");
                push_str(&mut s, language.as_str());
                push_str(&mut s, " (");
                push_decimal(&mut s, *match_count as u64);
                push_str(&mut s, " matches)");
                s
            },
            EvidenceSource::Unknown => "unknown".to_string(),
        }
    }

    /// Whether a tool, rather than a person or nothing, stands behind the source.
    pub fn is_verifiable(&self) -> (b: bool)
        ensures
            b == !(*self is Unknown || *self is UserProvided),
    {
        !matches!(self, EvidenceSource::Unknown | EvidenceSource::UserProvided)
    }

    /// Whether the source is a language-server query.
    pub fn is_lsp_based(&self) -> (b: bool)
        ensures
            b == lsp_based(*self),
    {
        matches!(
            self,
            EvidenceSource::LspDefinition { .. }
                | EvidenceSource::LspReferences { .. }
                | EvidenceSource::LspCallHierarchy { .. }
                | EvidenceSource::LspSymbolSearch { .. }
                | EvidenceSource::LspHover { .. }
                | EvidenceSource::LspDiagnostics { .. }
                | EvidenceSource::LspContext { .. }
        )
    }

    /// Whether the source is a syntax-tree search.
    pub fn is_ast_based(&self) -> (b: bool)
        ensures
            b == (*self is AstSearch),
    {
        matches!(self, EvidenceSource::AstSearch { .. })
    }

    /// Whether the source understands the code (language server or syntax tree).
    pub fn is_semantic(&self) -> (b: bool)
        ensures
            b == (lsp_based(*self) || *self is AstSearch),
    {
        self.is_lsp_based() || self.is_ast_based()
    }

    /// How far evidence from this source can be trusted.
    pub fn confidence_category(&self) -> (c: SourceConfidenceCategory)
        ensures
            c == category_of(*self),
    {
        match self {
            EvidenceSource::LspDefinition { .. }
            | EvidenceSource::LspReferences { .. }
            | EvidenceSource::LspCallHierarchy { .. }
            | EvidenceSource::LspDiagnostics { .. }
            | EvidenceSource::LspContext { .. }
            | EvidenceSource::AstSearch { .. } => SourceConfidenceCategory::Semantic,
            EvidenceSource::LspSymbolSearch { .. }
            | EvidenceSource::LspHover { .. }
            | EvidenceSource::GitHistory { .. }
            | EvidenceSource::DependencyAnalysis => SourceConfidenceCategory::ToolVerified,
            EvidenceSource::FilesystemStructure
            | EvidenceSource::PatternDetection { .. }
            | EvidenceSource::PriorKnowledge { .. } => SourceConfidenceCategory::Heuristic,
            EvidenceSource::UserProvided | EvidenceSource::Unknown => SourceConfidenceCategory::Unverified,
        }
    }

    /// The description prefixed by the source's confidence category.
    pub fn format_confidence_for_llm(&self) -> (s: String)
        requires
            describable(*self),
        ensures
            s@ == confidence_line(*self),
    {
        let category = self.confidence_category();
        let mut s = String::new();
        push_str(&mut s, "[");
        push_str(&mut s, category.label());
        push_str(&mut s, " - ");
        push_str(&mut s, category.level_hint());
        push_str(&mut s, " confidence] ");
        let d = self.description();
        push_str(&mut s, d.as_str());
        s
    }
}

/// How tests are laid out in the analyzed project.
#[derive(Debug, Clone, Default)]
pub struct TestStructure {
    pub file_patterns: Vec<String>,
    pub test_directories: Vec<String>,
    pub module_test_mapping: Vec<ModuleTestMapping>,
    pub framework: Option<String>,
}

/// The test files that exercise one source file.
#[derive(Debug, Clone)]
pub struct ModuleTestMapping {
    pub source_file: String,
    pub test_files: Vec<String>,
}

/// Dependencies the project has and those the plan may add.
#[derive(Debug, Clone, Default)]
pub struct DependencyAnalysis {
    pub current_dependencies: Vec<Dependency>,
    pub suggested_additions: Vec<SuggestedDependency>,
    pub version_constraints: Vec<String>,
}

/// A dependency the project already has.
#[derive(Debug, Clone)]
pub struct Dependency {
    pub name: String,
    pub version: String,
    pub purpose: String,
}

/// A dependency the plan suggests adding.
#[derive(Debug, Clone)]
pub struct SuggestedDependency {
    pub name: String,
    pub reason: String,
    pub alternatives: Vec<String>,
}

} // verus!

verus! {

/// How far the gathered evidence supports planning, with its coverage of
/// the required evidence categories in whole percent.
#[derive(Debug, Clone)]
pub enum EvidenceSufficiency {
    /// All required evidence gathered with high confidence.
    Complete,
    /// Enough evidence, with known gaps.
    Sufficient { coverage_pct: u64, missing: Vec<String> },
    /// Evidence in the risky zone: the model decides by the task's complexity.
    SufficientButRisky { coverage_pct: u64, missing: Vec<String>, risk_context: String },
    /// Not enough evidence; planning should stop.
    Insufficient { reason: String, coverage_pct: u64 },
}

/// `" (label: a, b)"`, or nothing when there is nothing missing.
pub open spec fn gaps_suffix(label: Seq<char>, missing: Seq<Seq<char>>) -> Seq<char> {
    if missing.len() == 0 {
        Seq::empty()
    } else {
        " ("@ + label + ": "@ + join(missing, ", "@) + ")"@
    }
}

/// The human-readable description of a sufficiency verdict.
pub open spec fn sufficiency_text(s: EvidenceSufficiency) -> Seq<char> {
    match s {
        EvidenceSufficiency::Complete => "Complete - all required evidence gathered"@,
        EvidenceSufficiency::Sufficient { coverage_pct, missing } => "Sufficient - "@ + decimal(coverage_pct as nat)
            + "% coverage"@ + gaps_suffix("missing"@, string_views(missing@)),
        EvidenceSufficiency::SufficientButRisky { coverage_pct, missing, risk_context } => "Risky - "@ + decimal(
            coverage_pct as nat,
        ) + "% coverage"@ + gaps_suffix("gaps"@, string_views(missing@)) + ": "@ + risk_context@,
        EvidenceSufficiency::Insufficient { reason, coverage_pct } => "Insufficient - "@ + decimal(coverage_pct as nat)
            + "% coverage: "@ + reason@,
    }
}

fn push_gaps(out: &mut String, label: &str, missing: &Vec<String>)
    ensures
        final(out)@ == old(out)@ + gaps_suffix(label@, string_views(missing@)),
{
    if missing.len() > 0 {
        push_str(out, " (");
        push_str(out, label);
        push_str(out, ": ");
        let j = join_strings(missing, ", ");
        proof {
            assert(missing@.map_values(|x: String| x@) =~= string_views(missing@));
        }
        push_str(out, j.as_str());
        push_str(out, ")");
    }
}

impl EvidenceSufficiency {
    /// Planning may go on: every verdict but `Insufficient`.
    pub fn allows_planning(&self) -> (b: bool)
        ensures
            b == !(self is Insufficient),
    {
        match self {
            EvidenceSufficiency::Insufficient { .. } => false,
            _ => true,
        }
    }

    /// The model must judge whether the evidence suffices: the risky verdict.
    pub fn requires_llm_assessment(&self) -> (b: bool)
        ensures
            b == (self is SufficientButRisky),
    {
        match self {
            EvidenceSufficiency::SufficientButRisky { .. } => true,
            _ => false,
        }
    }

    /// Coverage in whole percent; complete evidence covers everything.
    pub fn coverage_pct(&self) -> (p: u64)
        ensures
            p == match *self {
                EvidenceSufficiency::Complete => 100,
                EvidenceSufficiency::Sufficient { coverage_pct, .. } => coverage_pct,
                EvidenceSufficiency::SufficientButRisky { coverage_pct, .. } => coverage_pct,
                EvidenceSufficiency::Insufficient { coverage_pct, .. } => coverage_pct,
            },
    {
        match self {
            EvidenceSufficiency::Complete => 100,
            EvidenceSufficiency::Sufficient { coverage_pct, .. } => *coverage_pct,
            EvidenceSufficiency::SufficientButRisky { coverage_pct, .. } => *coverage_pct,
            EvidenceSufficiency::Insufficient { coverage_pct, .. } => *coverage_pct,
        }
    }

    /// The human-readable description.
    pub fn description(&self) -> (s: String)
        ensures
            s@ == sufficiency_text(*self),
    {
        let mut s = String::new();
        match self {
            EvidenceSufficiency::Complete => {
                push_str(&mut s, "Complete - all required evidence gathered");
            },
            EvidenceSufficiency::Sufficient { coverage_pct, missing } => {
                push_str(&mut s, "Sufficient - ");
                push_decimal(&mut s, *coverage_pct);
                push_str(&mut s, "% coverage");
                push_gaps(&mut s, "missing", missing);
            },
            EvidenceSufficiency::SufficientButRisky { coverage_pct, missing, risk_context } => {
                push_str(&mut s, "Risky - ");
                push_decimal(&mut s, *coverage_pct);
                push_str(&mut s, "% coverage");
                push_gaps(&mut s, "gaps", missing);
                push_str(&mut s, ": ");
                push_str(&mut s, risk_context.as_str());
            },
            EvidenceSufficiency::Insufficient { reason, coverage_pct } => {
                push_str(&mut s, "Insufficient - ");
                push_decimal(&mut s, *coverage_pct);
                push_str(&mut s, "% coverage: ");
                push_str(&mut s, reason.as_str());
            },
        }
        proof {
            assert(s@ =~= sufficiency_text(*self));
        }
        s
    }
}

} // verus!

verus! {

/// `dst` followed by each element of `incoming` that is not already there
/// (counting the ones added before it), in order.
pub open spec fn merged(dst: Seq<Seq<char>>, incoming: Seq<Seq<char>>) -> Seq<Seq<char>>
    decreases incoming.len(),
{
    if incoming.len() == 0 {
        dst
    } else {
        let m = merged(dst, incoming.drop_last());
        if m.contains(incoming.last()) {
            m
        } else {
            m.push(incoming.last())
        }
    }
}

/// The positions in `incoming` of the elements that `merged` appends.
pub open spec fn merge_positions(dst: Seq<Seq<char>>, incoming: Seq<Seq<char>>) -> Seq<int>
    decreases incoming.len(),
{
    if incoming.len() == 0 {
        Seq::empty()
    } else {
        let p = merge_positions(dst, incoming.drop_last());
        if merged(dst, incoming.drop_last()).contains(incoming.last()) {
            p
        } else {
            p.push(incoming.len() - 1)
        }
    }
}

/// Whether `v` holds `x`.
fn holds(v: &Vec<String>, x: &String) -> (b: bool)
    ensures
        b == string_views(v@).contains(x@),
{
    let mut i: usize = 0;
    while i < v.len()
        invariant
            0 <= i <= v.len(),
            forall|k: int| 0 <= k < i ==> string_views(v@)[k] != x@,
        decreases v.len() - i,
    {
        if v[i] == *x {
            proof {
                assert(string_views(v@)[i as int] == x@);
            }
            return true;
        }
        i = i + 1;
    }
    false
}

/// Appends to `dst` the strings of `incoming` it does not hold yet.
pub fn merge_unique(dst: &mut Vec<String>, incoming: &Vec<String>)
    ensures
        string_views(final(dst)@) == merged(string_views(old(dst)@), string_views(incoming@)),
{
    let ghost d0 = string_views(dst@);
    let ghost si = string_views(incoming@);
    let mut i: usize = 0;
    proof {
        assert(si.subrange(0, 0) =~= Seq::<Seq<char>>::empty());
    }
    while i < incoming.len()
        invariant
            0 <= i <= incoming.len(),
            si == string_views(incoming@),
            string_views(dst@) == merged(d0, si.subrange(0, i as int)),
        decreases incoming.len() - i,
    {
        let ghost q = si.subrange(0, i + 1);
        proof {
            assert(q.drop_last() =~= si.subrange(0, i as int));
            assert(q.last() == incoming@[i as int]@);
        }
        if !holds(dst, &incoming[i]) {
            let ghost before = string_views(dst@);
            dst.push(incoming[i].clone());
            proof {
                assert(string_views(dst@) =~= before.push(incoming@[i as int]@));
            }
        }
        i = i + 1;
    }
    proof {
        assert(si.subrange(0, incoming.len() as int) =~= si);
    }
}

/// The positions of the items of `incoming` whose keys `merge_unique` would
/// append to `keys`: those whose key is neither in `keys` nor on an item
/// taken before.
pub fn new_key_positions(keys: &Vec<String>, incoming: &Vec<String>) -> (v: Vec<usize>)
    ensures
        v@.map_values(|i: usize| i as int) == merge_positions(string_views(keys@), string_views(incoming@)),
{
    let mut seen: Vec<String> = Vec::new();
    let mut k: usize = 0;
    while k < keys.len()
        invariant
            0 <= k <= keys.len(),
            string_views(seen@) == string_views(keys@).subrange(0, k as int),
        decreases keys.len() - k,
    {
        let ghost before = string_views(seen@);
        seen.push(keys[k].clone());
        proof {
            assert(string_views(seen@) =~= before.push(keys@[k as int]@));
            assert(string_views(keys@).subrange(0, k + 1) =~= string_views(keys@).subrange(0, k as int).push(
                keys@[k as int]@,
            ));
        }
        k = k + 1;
    }
    proof {
        assert(string_views(keys@).subrange(0, keys.len() as int) =~= string_views(keys@));
    }
    let ghost d0 = string_views(keys@);
    let ghost si = string_views(incoming@);
    let mut v: Vec<usize> = Vec::new();
    let mut i: usize = 0;
    proof {
        assert(si.subrange(0, 0) =~= Seq::<Seq<char>>::empty());
        assert(v@.map_values(|i: usize| i as int) =~= Seq::<int>::empty());
    }
    while i < incoming.len()
        invariant
            0 <= i <= incoming.len(),
            si == string_views(incoming@),
            string_views(seen@) == merged(d0, si.subrange(0, i as int)),
            v@.map_values(|i: usize| i as int) == merge_positions(d0, si.subrange(0, i as int)),
        decreases incoming.len() - i,
    {
        let ghost q = si.subrange(0, i + 1);
        proof {
            assert(q.drop_last() =~= si.subrange(0, i as int));
            assert(q.last() == incoming@[i as int]@);
        }
        if !holds(&seen, &incoming[i]) {
            let ghost before = string_views(seen@);
            let ghost vb = v@.map_values(|i: usize| i as int);
            seen.push(incoming[i].clone());
            v.push(i);
            proof {
                assert(string_views(seen@) =~= before.push(incoming@[i as int]@));
                assert(v@.map_values(|i: usize| i as int) =~= vb.push(i as int));
            }
        }
        i = i + 1;
    }
    proof {
        assert(si.subrange(0, incoming.len() as int) =~= si);
    }
    v
}

impl EvidenceCompleteness {
    /// Takes in the completeness of merged evidence: the result is complete
    /// only if both were, and the other's warnings follow this one's.
    pub fn absorb(&mut self, other: EvidenceCompleteness)
        ensures
            final(self).is_complete == (old(self).is_complete && other.is_complete),
            final(self).files_found == old(self).files_found,
            final(self).files_limit == old(self).files_limit,
            string_views(final(self).warnings@) == string_views(old(self).warnings@) + string_views(other.warnings@),
    {
        if !other.is_complete {
            self.is_complete = false;
        }
        let mut i: usize = 0;
        let ghost w0 = string_views(self.warnings@);
        while i < other.warnings.len()
            invariant
                0 <= i <= other.warnings.len(),
                string_views(self.warnings@) == w0 + string_views(other.warnings@).subrange(0, i as int),
                w0 == string_views(old(self).warnings@),
                self.is_complete == (old(self).is_complete && other.is_complete),
                self.files_found == old(self).files_found,
                self.files_limit == old(self).files_limit,
            decreases other.warnings.len() - i,
        {
            let ghost before = string_views(self.warnings@);
            self.warnings.push(other.warnings[i].clone());
            proof {
                assert(string_views(self.warnings@) =~= before.push(other.warnings@[i as int]@));
                assert(string_views(other.warnings@).subrange(0, i + 1) =~= string_views(other.warnings@).subrange(
                    0,
                    i as int,
                ).push(other.warnings@[i as int]@));
            }
            i = i + 1;
        }
        proof {
            assert(string_views(other.warnings@).subrange(0, other.warnings.len() as int) =~= string_views(
                other.warnings@,
            ));
        }
    }
}

} // verus!

verus! {

/// A dependency as values: name, version, purpose.
pub type DependencyView = (Seq<char>, Seq<char>, Seq<char>);

/// Dependencies as values.
pub open spec fn dependency_views(v: Seq<Dependency>) -> Seq<DependencyView> {
    v.map_values(|d: Dependency| (d.name@, d.version@, d.purpose@))
}

/// Some dependency of `ds` has the name `n`.
pub open spec fn names_dependency(ds: Seq<DependencyView>, n: Seq<char>) -> bool {
    exists|k: int| 0 <= k < ds.len() && (#[trigger] ds[k]).0 == n
}

/// `dst` followed by each dependency of `incoming` whose name is not
/// already there (counting the ones added before it), in order.
pub open spec fn merged_dependencies(dst: Seq<DependencyView>, incoming: Seq<DependencyView>) -> Seq<DependencyView>
    decreases incoming.len(),
{
    if incoming.len() == 0 {
        dst
    } else {
        let m = merged_dependencies(dst, incoming.drop_last());
        if names_dependency(m, incoming.last().0) {
            m
        } else {
            m.push(incoming.last())
        }
    }
}

/// Appends to `dst` the dependencies of `incoming` whose name it does not
/// list yet.
pub fn merge_dependencies(dst: &mut Vec<Dependency>, incoming: &Vec<Dependency>)
    ensures
        dependency_views(final(dst)@) == merged_dependencies(dependency_views(old(dst)@), dependency_views(incoming@)),
{
    let ghost d0 = dependency_views(dst@);
    let ghost si = dependency_views(incoming@);
    let mut i: usize = 0;
    proof {
        assert(si.subrange(0, 0) =~= Seq::<DependencyView>::empty());
    }
    while i < incoming.len()
        invariant
            0 <= i <= incoming.len(),
            si == dependency_views(incoming@),
            dependency_views(dst@) == merged_dependencies(d0, si.subrange(0, i as int)),
        decreases incoming.len() - i,
    {
        let ghost q = si.subrange(0, i + 1);
        proof {
            assert(q.drop_last() =~= si.subrange(0, i as int));
            assert(q.last() == si[i as int]);
        }
        let d = &incoming[i];
        let mut found = false;
        let mut j: usize = 0;
        while j < dst.len()
            invariant
                0 <= j <= dst.len(),
                i < incoming.len(),
                d == &incoming@[i as int],
                found == exists|k: int| 0 <= k < j && (#[trigger] dependency_views(dst@)[k]).0 == d.name@,
            decreases dst.len() - j,
        {
            if dst[j].name == d.name {
                found = true;
                proof {
                    assert(dependency_views(dst@)[j as int].0 == d.name@);
                }
            }
            j = j + 1;
        }
        proof {
            assert(found == names_dependency(dependency_views(dst@), si[i as int].0));
        }
        if !found {
            let ghost before = dependency_views(dst@);
            dst.push(Dependency { name: d.name.clone(), version: d.version.clone(), purpose: d.purpose.clone() });
            proof {
                assert(dependency_views(dst@) =~= before.push(si[i as int]));
            }
        }
        i = i + 1;
    }
    proof {
        assert(si.subrange(0, incoming.len() as int) =~= si);
    }
}

} // verus!

verus! {

/// Merging keeps what was there first and in place, adds exactly the
/// elements of `incoming` that were missing, and introduces no repeats.
pub proof fn lemma_merge_dedups(dst: Seq<Seq<char>>, incoming: Seq<Seq<char>>)
    requires
        dst.no_duplicates(),
    ensures
        merged(dst, incoming).no_duplicates(),
        merged(dst, incoming).len() >= dst.len(),
        merged(dst, incoming).subrange(0, dst.len() as int) == dst,
        forall|x: Seq<char>| #[trigger] merged(dst, incoming).contains(x) <==> (dst.contains(x) || incoming.contains(x)),
    decreases incoming.len(),
{
    if incoming.len() > 0 {
        let init = incoming.drop_last();
        let y = incoming.last();
        lemma_merge_dedups(dst, init);
        let m = merged(dst, init);
        assert forall|x: Seq<char>| #[trigger] incoming.contains(x) <==> (init.contains(x) || x == y) by {
            if incoming.contains(x) {
                let k = choose|k: int| 0 <= k < incoming.len() && incoming[k] == x;
                if k < init.len() {
                    assert(init[k] == x);
                }
            }
            if init.contains(x) {
                let k = choose|k: int| 0 <= k < init.len() && init[k] == x;
                assert(incoming[k] == x);
            }
            if x == y {
                assert(incoming[incoming.len() - 1] == x);
            }
        }
        if !m.contains(y) {
            let r = m.push(y);
            assert(r.subrange(0, dst.len() as int) =~= m.subrange(0, dst.len() as int));
            assert forall|x: Seq<char>| #[trigger] r.contains(x) <==> (m.contains(x) || x == y) by {
                if r.contains(x) {
                    let k = choose|k: int| 0 <= k < r.len() && r[k] == x;
                    if k < m.len() {
                        assert(m[k] == x);
                    }
                }
                if m.contains(x) {
                    let k = choose|k: int| 0 <= k < m.len() && m[k] == x;
                    assert(r[k] == x);
                }
                if x == y {
                    assert(r[m.len() as int] == x);
                }
            }
            assert forall|i: int, j: int| 0 <= i < r.len() && 0 <= j < r.len() && i != j implies r[i] != r[j] by {
                if i < m.len() && j < m.len() {
                } else if i == m.len() {
                    assert(m[j] == r[j]);
                } else {
                    assert(m[i] == r[i]);
                }
            }
        }
    }
}

} // verus!
