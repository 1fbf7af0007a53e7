//! The verdict on a plan: every validation check run on the specification,
//! the plan, its tasks and the evidence, the issues and warnings they raise,
//! and the feedback for a revision when the plan fails.

use vstd::prelude::*;
use crate::agent::PilotError;
use crate::alignment::{
    alignment_details, alignment_passed, below, covered_count, distinct, grounds, new_files_details, new_path_detail,
    new_path_details, pattern_details, plan_coverage_details, relevant_detail, tally, task_coverage_details,
    AlignmentEvidence, PathFacts,
};
use crate::artifacts::{all_tasks, count_parallel, Clarification, ConstitutionCheck, PlanArtifact, PlannedTask, SpecArtifact, TasksArtifact, UserStory};
use crate::compliance::{constitution_details, constitution_passed, fact_based_detail, principle_error, EvidenceQualityScore};
use crate::domain::IssueSeverity;
use crate::evidence::{string_views, sufficiency_text, EvidenceSufficiency};
use crate::paths::{join, join_strings};
use crate::text::{decimal, push_decimal, push_str};
use crate::graph::names;
use crate::validation::{
    checkpoint_detail, dep_details, deps_resolve_in, missing_dep_details, parallel_details, story_detail, story_details,
    story_has_tasks, task_exists, DetailView,
    all_suggestions, check_issues, issue_suggestions, collect_issues_from, consistency_details, consistency_passed, cycle_detail,
    detail_views, feasibility_passed, feasibility_tail, has_dependency_cycle, is_dependency_cycle, issue_views,
    suggestion_views, tier_for, IssueView, PlanValidator, QualityTier, RevisionFeedback, ValidationCheckResult,
    ValidationIssue,
};

verus! {

broadcast use vstd::string::group_string_axioms;

/// What was learnt from the evidence before the plan is judged: how far it
/// suffices, the quality check already run on it, its quality score, what
/// it found in the codebase, and what the file system says of the paths the
/// plan and its tasks name.
#[derive(Debug)]
pub struct EvidenceFindings {
    pub sufficiency: EvidenceSufficiency,
    pub quality_check: ValidationCheckResult,
    pub quality: EvidenceQualityScore,
    pub alignment: AlignmentEvidence,
    pub facts: Vec<PathFacts>,
}

/// The outcome of validating a plan.
#[derive(Debug)]
pub struct ValidationResult {
    pub passed: bool,
    /// The plan may go on, but the evidence is only fair (or risky): the
    /// task's complexity should decide.
    pub requires_complexity_assessment: bool,
    pub evidence_sufficiency: EvidenceSufficiency,
    pub spec_plan_consistency: ValidationCheckResult,
    pub evidence_quality: ValidationCheckResult,
    pub evidence_alignment: ValidationCheckResult,
    pub constitution_compliance: ValidationCheckResult,
    pub execution_feasibility: ValidationCheckResult,
    pub issues: Vec<ValidationIssue>,
    pub warnings: Vec<String>,
    pub revision_feedback: Option<RevisionFeedback>,
}

/// The issue an insufficient verdict raises.
pub open spec fn sufficiency_issues(s: EvidenceSufficiency) -> Seq<IssueView> {
    if s is Insufficient {
        seq![(IssueSeverity::Error, "Evidence Sufficiency"@, sufficiency_text(s))]
    } else {
        Seq::empty()
    }
}

/// The warning about missing evidence areas, if there are any.
pub open spec fn gap_warning(missing: Seq<Seq<char>>) -> Seq<Seq<char>> {
    if missing.len() == 0 {
        Seq::empty()
    } else {
        seq!["Evidence gaps: "@ + join(missing, ", "@)]
    }
}

/// The warnings a verdict that allows planning raises about its gaps and risks.
pub open spec fn sufficiency_warnings(s: EvidenceSufficiency) -> Seq<Seq<char>> {
    match s {
        EvidenceSufficiency::Sufficient { missing, .. } => gap_warning(string_views(missing@)),
        EvidenceSufficiency::SufficientButRisky { coverage_pct, missing, risk_context } => seq![
            "Risky evidence ("@ + decimal(coverage_pct as nat) + "%): "@ + risk_context@
                + " - LLM should assess if sufficient for task complexity"@,
        ] + gap_warning(string_views(missing@)),
        _ => Seq::empty(),
    }
}

/// Every clarification has been answered.
pub open spec fn all_resolved(cs: Seq<Clarification>) -> bool {
    forall|i: int| 0 <= i < cs.len() ==> (#[trigger] cs[i]).resolved
}

/// The warning about unanswered clarifications, if there are any.
pub open spec fn clarification_warnings(cs: Seq<Clarification>) -> Seq<Seq<char>> {
    if all_resolved(cs) {
        Seq::empty()
    } else {
        seq!["Some clarifications are still pending"@]
    }
}

/// A check's result, as `check_execution_feasibility` reports it.
pub open spec fn feasibility_report(r: ValidationCheckResult, tasks: TasksArtifact) -> bool {
    &&& r.passed == feasibility_passed(tasks.phases@)
    &&& r.tier == tier_for(r.passed)
    &&& has_dependency_cycle(tasks.phases@) ==> exists|p: Seq<Seq<char>>|
        #[trigger] is_dependency_cycle(tasks.phases@, p) && detail_views(r.details@) == seq![cycle_detail(p)]
            + feasibility_tail(tasks.phases@)
    &&& !has_dependency_cycle(tasks.phases@) ==> detail_views(r.details@) == feasibility_tail(tasks.phases@)
}

/// The issues of a result: the sufficiency issue, then the errors of each
/// failed check, check by check.
pub open spec fn result_issues(v: ValidationResult) -> Seq<IssueView> {
    sufficiency_issues(v.evidence_sufficiency) + check_issues(
        v.spec_plan_consistency.passed,
        detail_views(v.spec_plan_consistency.details@),
        "Spec-Plan Consistency"@,
    ) + check_issues(v.evidence_quality.passed, detail_views(v.evidence_quality.details@), "Evidence Quality"@)
        + check_issues(v.evidence_alignment.passed, detail_views(v.evidence_alignment.details@), "Evidence Alignment"@)
        + check_issues(
        v.constitution_compliance.passed,
        detail_views(v.constitution_compliance.details@),
        "Constitution Compliance"@,
    ) + check_issues(
        v.execution_feasibility.passed,
        detail_views(v.execution_feasibility.details@),
        "Execution Feasibility"@,
    )
}

/// `v` is the verdict on `spec`, `plan` and `tasks` given the evidence
/// findings `f`, a coverage threshold of `threshold` percent and at most
/// `max` listed items.
pub open spec fn is_verdict(
    v: ValidationResult,
    spec: SpecArtifact,
    plan: PlanArtifact,
    tasks: TasksArtifact,
    f: EvidenceFindings,
    threshold: nat,
    max: nat,
) -> bool {
    &&& v.evidence_sufficiency == f.sufficiency
    &&& v.spec_plan_consistency.passed == consistency_passed(spec, tasks)
    &&& v.spec_plan_consistency.tier == tier_for(v.spec_plan_consistency.passed)
    &&& detail_views(v.spec_plan_consistency.details@) == consistency_details(spec, tasks)
    &&& v.evidence_quality == f.quality_check
    &&& v.evidence_alignment.passed == alignment_passed(f.alignment, plan, tasks, f.facts@, threshold)
    &&& v.evidence_alignment.tier == tier_for(v.evidence_alignment.passed)
    &&& detail_views(v.evidence_alignment.details@) == alignment_details(f.alignment, plan, tasks, f.facts@, threshold, max)
    &&& v.constitution_compliance.passed == constitution_passed(plan.constitution_check, f.quality)
    &&& v.constitution_compliance.tier == tier_for(v.constitution_compliance.passed)
    &&& detail_views(v.constitution_compliance.details@) == constitution_details(plan.constitution_check, f.quality)
    &&& feasibility_report(v.execution_feasibility, tasks)
    &&& issue_views(v.issues@) == result_issues(v)
    &&& string_views(v.warnings@) == (if f.sufficiency is Insufficient {
        Seq::empty()
    } else {
        sufficiency_warnings(f.sufficiency)
    }) + clarification_warnings(spec.clarifications@)
    &&& v.passed == (!(f.sufficiency is Insufficient) && v.spec_plan_consistency.passed && v.evidence_quality.passed
        && v.evidence_alignment.passed && v.constitution_compliance.passed && v.execution_feasibility.passed)
    &&& v.requires_complexity_assessment == (v.evidence_quality.tier == QualityTier::Yellow
        || f.sufficiency is SufficientButRisky)
    &&& v.passed ==> v.revision_feedback is None
    &&& !v.passed ==> (v.revision_feedback is None <==> all_suggestions(
        issue_views(v.issues@),
        string_views(v.warnings@),
    ).len() == 0)
    &&& v.revision_feedback matches Some(fb) ==> suggestion_views(fb.suggestions@) == all_suggestions(
        issue_views(v.issues@),
        string_views(v.warnings@),
    )
}

fn push_gap_warning(warnings: &mut Vec<String>, missing: &Vec<String>)
    ensures
        string_views(final(warnings)@) == string_views(old(warnings)@) + gap_warning(string_views(missing@)),
{
    let ghost before = string_views(warnings@);
    if missing.len() > 0 {
        let mut w = String::new();
        push_str(&mut w, "Evidence gaps: ");
        let j = join_strings(missing, ", ");
        proof {
            assert(missing@.map_values(|x: String| x@) =~= string_views(missing@));
        }
        push_str(&mut w, j.as_str());
        warnings.push(w);
    }
    proof {
        assert(string_views(warnings@) =~= before + gap_warning(string_views(missing@)));
    }
}

/// Whether every clarification has been answered.
fn clarifications_resolved(cs: &Vec<Clarification>) -> (b: bool)
    ensures
        b == all_resolved(cs@),
{
    let mut i: usize = 0;
    while i < cs.len()
        invariant
            0 <= i <= cs.len(),
            forall|k: int| 0 <= k < i ==> (#[trigger] cs@[k]).resolved,
        decreases cs.len() - i,
    {
        if !cs[i].resolved {
            return false;
        }
        i = i + 1;
    }
    true
}

impl PlanValidator {
    /// Validates a plan: runs the consistency, alignment, constitution and
    /// feasibility checks beside the evidence-quality check in `findings`;
    /// collects their errors (after the sufficiency issue, if any) and the
    /// warnings about evidence gaps and pending clarifications; the plan
    /// passes when the evidence allows planning and every check passes, and
    /// a failed plan gets revision feedback. A plan passes exactly when no
    /// issue is raised, and gets feedback exactly when it fails. The
    /// evidence-quality check handed in must report an error whenever it
    /// failed, as that check does.
    pub fn validate(
        &self,
        spec: &SpecArtifact,
        plan: &PlanArtifact,
        tasks: &TasksArtifact,
        findings: EvidenceFindings,
        coverage_threshold_pct: u64,
        max_display_items: usize,
    ) -> (r: Result<ValidationResult, PilotError>)
        requires
            tasks.task_count() <= usize::MAX,
            !findings.quality_check.passed ==> has_error(detail_views(findings.quality_check.details@)),
        ensures
            r matches Ok(v) && v.passed == (v.issues@.len() == 0) && (v.revision_feedback is Some) == !v.passed,
            r matches Ok(v) && is_verdict(
                v,
                *spec,
                *plan,
                *tasks,
                findings,
                coverage_threshold_pct as nat,
                max_display_items as nat,
            ),
    {
        let ghost f = findings;
        let spec_plan = self.check_spec_plan_consistency(spec, tasks);
        let evidence_align = self.check_evidence_alignment(
            &findings.alignment,
            plan,
            tasks,
            &findings.facts,
            coverage_threshold_pct,
            max_display_items,
        );
        let constitution = self.check_constitution_compliance(plan, &findings.quality);
        let feasibility = self.check_execution_feasibility(tasks);
        let sufficiency = findings.sufficiency;
        let evidence_quality = findings.quality_check;

        let mut issues: Vec<ValidationIssue> = Vec::new();
        let mut warnings: Vec<String> = Vec::new();
        let allows = sufficiency.allows_planning();
        if !allows {
            issues.push(
                ValidationIssue {
                    severity: IssueSeverity::Error,
                    category: "Evidence Sufficiency".to_string(),
                    description: sufficiency.description(),
                },
            );
        } else {
            match &sufficiency {
                EvidenceSufficiency::Sufficient { missing, .. } => {
                    push_gap_warning(&mut warnings, missing);
                },
                EvidenceSufficiency::SufficientButRisky { coverage_pct, missing, risk_context } => {
                    let mut w = String::new();
                    push_str(&mut w, "Risky evidence (");
                    push_decimal(&mut w, *coverage_pct);
                    push_str(&mut w, "%): ");
                    push_str(&mut w, risk_context.as_str());
                    push_str(&mut w, " - LLM should assess if sufficient for task complexity");
                    warnings.push(w);
                    push_gap_warning(&mut warnings, missing);
                },
                _ => {},
            }
        }
        proof {
            assert(issue_views(issues@) =~= sufficiency_issues(sufficiency));
            if allows {
                assert(string_views(warnings@) =~= sufficiency_warnings(sufficiency));
            } else {
                assert(string_views(warnings@) =~= Seq::<Seq<char>>::empty());
            }
        }

        collect_issues_from(&spec_plan, "Spec-Plan Consistency", &mut issues);
        collect_issues_from(&evidence_quality, "Evidence Quality", &mut issues);
        collect_issues_from(&evidence_align, "Evidence Alignment", &mut issues);
        collect_issues_from(&constitution, "Constitution Compliance", &mut issues);
        collect_issues_from(&feasibility, "Execution Feasibility", &mut issues);

        let ghost w0 = string_views(warnings@);
        if !clarifications_resolved(&spec.clarifications) {
            warnings.push("Some clarifications are still pending".to_string());
        }
        proof {
            assert(string_views(warnings@) =~= w0 + clarification_warnings(spec.clarifications@));
        }

        let passed = allows && spec_plan.passed && evidence_quality.passed && evidence_align.passed
            && constitution.passed && feasibility.passed;
        let requires_complexity_assessment = evidence_quality.tier == QualityTier::Yellow
            || sufficiency.requires_llm_assessment();
        let revision_feedback = if !passed {
            RevisionFeedback::from_issues(issues.as_slice(), warnings.as_slice())
        } else {
            None
        };
        proof {
            assert(warnings@.map_values(|w: String| w@) =~= string_views(warnings@));
        }
        let v = ValidationResult {
            passed,
            requires_complexity_assessment,
            evidence_sufficiency: sufficiency,
            spec_plan_consistency: spec_plan,
            evidence_quality,
            evidence_alignment: evidence_align,
            constitution_compliance: constitution,
            execution_feasibility: feasibility,
            issues,
            warnings,
            revision_feedback,
        };
        proof {
            assert(issue_views(v.issues@) =~= result_issues(v));
            lemma_verdict_issues(v, *spec, *plan, *tasks, f, coverage_threshold_pct as nat, max_display_items as nat);
        }
        Ok(v)
    }
}

} // verus!

verus! {

/// How a severity is written in a summary.
pub open spec fn severity_label(s: IssueSeverity) -> Seq<char> {
    match s {
        IssueSeverity::Critical => "CRITICAL"@,
        IssueSeverity::Error => "ERROR"@,
        IssueSeverity::Warning => "WARN"@,
        IssueSeverity::Info => "INFO"@,
    }
}

fn severity_str(s: IssueSeverity) -> (r: &'static str)
    ensures
        r@ == severity_label(s),
{
    match s {
        IssueSeverity::Critical => "CRITICAL",
        IssueSeverity::Error => "ERROR",
        IssueSeverity::Warning => "WARN",
        IssueSeverity::Info => "INFO",
    }
}

/// A check's PASS/FAIL line.
pub open spec fn pass_line(name: Seq<char>, c: ValidationCheckResult) -> Seq<char> {
    name + ": "@ + (if c.passed {
        "PASS"@
    } else {
        "FAIL"@
    }) + "\n"@
}

/// One line per issue: severity, category, description.
pub open spec fn issue_lines(is: Seq<IssueView>) -> Seq<char>
    decreases is.len(),
{
    if is.len() == 0 {
        Seq::empty()
    } else {
        issue_lines(is.drop_last()) + "  ["@ + severity_label(is.last().0) + "] "@ + is.last().1 + ": "@ + is.last().2
            + "\n"@
    }
}

/// One line per warning.
pub open spec fn warning_lines(ws: Seq<Seq<char>>) -> Seq<char>
    decreases ws.len(),
{
    if ws.len() == 0 {
        Seq::empty()
    } else {
        warning_lines(ws.drop_last()) + "  - "@ + ws.last() + "\n"@
    }
}

/// The coverage of a verdict in whole percent.
pub open spec fn coverage_of(s: EvidenceSufficiency) -> nat {
    match s {
        EvidenceSufficiency::Complete => 100,
        EvidenceSufficiency::Sufficient { coverage_pct, .. } => coverage_pct as nat,
        EvidenceSufficiency::SufficientButRisky { coverage_pct, .. } => coverage_pct as nat,
        EvidenceSufficiency::Insufficient { coverage_pct, .. } => coverage_pct as nat,
    }
}

/// The sufficiency line and one PASS/FAIL line per check.
pub open spec fn summary_head(v: ValidationResult) -> Seq<char> {
    "Evidence Sufficiency: "@ + (if v.evidence_sufficiency is Insufficient {
        "INSUFFICIENT"@
    } else {
        "OK"@
    }) + " (coverage: "@ + decimal(coverage_of(v.evidence_sufficiency)) + "%)\n"@ + pass_line(
        "Spec-Plan Consistency"@,
        v.spec_plan_consistency,
    ) + pass_line("Evidence Quality"@, v.evidence_quality) + pass_line("Evidence Alignment"@, v.evidence_alignment)
        + pass_line("Constitution Compliance"@, v.constitution_compliance) + pass_line(
        "Execution Feasibility"@,
        v.execution_feasibility,
    )
}

/// The issues section of a summary; nothing when there is no issue.
pub open spec fn issues_block(is: Seq<IssueView>) -> Seq<char> {
    if is.len() == 0 {
        Seq::empty()
    } else {
        "\nIssues ("@ + decimal(is.len()) + "):\n"@ + issue_lines(is)
    }
}

/// The warnings section of a summary; nothing when there is no warning.
pub open spec fn warnings_block(ws: Seq<Seq<char>>) -> Seq<char> {
    if ws.len() == 0 {
        Seq::empty()
    } else {
        "\nWarnings ("@ + decimal(ws.len()) + "):\n"@ + warning_lines(ws)
    }
}

/// The text summary of a verdict.
pub open spec fn summary_text(v: ValidationResult) -> Seq<char> {
    summary_head(v) + issues_block(issue_views(v.issues@)) + warnings_block(string_views(v.warnings@))
}

fn push_pass_line(out: &mut String, name: &str, c: &ValidationCheckResult)
    ensures
        final(out)@ == old(out)@ + pass_line(name@, *c),
{
    push_str(out, name);
    push_str(out, ": ");
    if c.passed {
        push_str(out, "PASS");
    } else {
        push_str(out, "FAIL");
    }
    push_str(out, "\n");
}

fn push_issues(out: &mut String, issues: &Vec<ValidationIssue>)
    ensures
        final(out)@ == old(out)@ + issues_block(issue_views(issues@)),
{
    let ghost is = issue_views(issues@);
    if issues.len() > 0 {
        push_str(out, "\nIssues (");
        push_decimal(out, issues.len() as u64);
        push_str(out, "):\n");
        let ghost start = out@;
        let mut i: usize = 0;
        proof {
            assert(is.subrange(0, 0) =~= Seq::<IssueView>::empty());
            assert(out@ =~= start + issue_lines(is.subrange(0, 0)));
        }
        while i < issues.len()
            invariant
                0 <= i <= issues.len(),
                is == issue_views(issues@),
                out@ == start + issue_lines(is.subrange(0, i as int)),
            decreases issues.len() - i,
        {
            let issue = &issues[i];
            push_str(out, "  [");
            push_str(out, severity_str(issue.severity));
            push_str(out, "] ");
            push_str(out, issue.category.as_str());
            push_str(out, ": ");
            push_str(out, issue.description.as_str());
            push_str(out, "\n");
            proof {
                let q = is.subrange(0, i + 1);
                assert(q.drop_last() =~= is.subrange(0, i as int));
                assert(q.last() == (issue.severity, issue.category@, issue.description@));
                assert(out@ =~= start + issue_lines(q));
            }
            i = i + 1;
        }
        proof {
            assert(is.subrange(0, issues.len() as int) =~= is);
        }
    } else {
        proof {
            assert(old(out)@ + issues_block(is) =~= old(out)@);
        }
    }
}

fn push_warnings(out: &mut String, warnings: &Vec<String>)
    ensures
        final(out)@ == old(out)@ + warnings_block(string_views(warnings@)),
{
    let ghost ws = string_views(warnings@);
    if warnings.len() > 0 {
        push_str(out, "\nWarnings (");
        push_decimal(out, warnings.len() as u64);
        push_str(out, "):\n");
        let ghost start = out@;
        let mut i: usize = 0;
        proof {
            assert(ws.subrange(0, 0) =~= Seq::<Seq<char>>::empty());
            assert(out@ =~= start + warning_lines(ws.subrange(0, 0)));
        }
        while i < warnings.len()
            invariant
                0 <= i <= warnings.len(),
                ws == string_views(warnings@),
                out@ == start + warning_lines(ws.subrange(0, i as int)),
            decreases warnings.len() - i,
        {
            push_str(out, "  - ");
            push_str(out, warnings[i].as_str());
            push_str(out, "\n");
            proof {
                let q = ws.subrange(0, i + 1);
                assert(q.drop_last() =~= ws.subrange(0, i as int));
                assert(out@ =~= start + warning_lines(q));
            }
            i = i + 1;
        }
        proof {
            assert(ws.subrange(0, warnings.len() as int) =~= ws);
        }
    } else {
        proof {
            assert(old(out)@ + warnings_block(ws) =~= old(out)@);
        }
    }
}

impl ValidationResult {
    /// A text summary: the sufficiency verdict and coverage, one PASS/FAIL
    /// line per check, then the issues and the warnings, if any.
    pub fn to_summary(&self) -> (s: String)
        ensures
            s@ == summary_text(*self),
    {
        let mut s = String::new();
        push_str(&mut s, "Evidence Sufficiency: ");
        if self.evidence_sufficiency.allows_planning() {
            push_str(&mut s, "OK");
        } else {
            push_str(&mut s, "INSUFFICIENT");
        }
        push_str(&mut s, " (coverage: ");
        push_decimal(&mut s, self.evidence_sufficiency.coverage_pct());
        push_str(&mut s, "%)\n");
        push_pass_line(&mut s, "Spec-Plan Consistency", &self.spec_plan_consistency);
        push_pass_line(&mut s, "Evidence Quality", &self.evidence_quality);
        push_pass_line(&mut s, "Evidence Alignment", &self.evidence_alignment);
        push_pass_line(&mut s, "Constitution Compliance", &self.constitution_compliance);
        push_pass_line(&mut s, "Execution Feasibility", &self.execution_feasibility);
        proof {
            assert(s@ =~= summary_head(*self));
        }
        push_issues(&mut s, &self.issues);
        push_warnings(&mut s, &self.warnings);
        proof {
            assert(s@ =~= summary_text(*self));
        }
        s
    }
}

} // verus!

verus! {

/// Some detail reports an error.
pub open spec fn has_error(ds: Seq<DetailView>) -> bool {
    exists|i: int| 0 <= i < ds.len() && (#[trigger] ds[i]) is Error
}

proof fn lemma_error_in_concat(a: Seq<DetailView>, b: Seq<DetailView>)
    ensures
        has_error(a) ==> has_error(a + b),
        has_error(b) ==> has_error(a + b),
{
    if has_error(a) {
        let i = choose|i: int| 0 <= i < a.len() && (#[trigger] a[i]) is Error;
        assert((a + b)[i] == a[i]);
    }
    if has_error(b) {
        let i = choose|i: int| 0 <= i < b.len() && (#[trigger] b[i]) is Error;
        assert((a + b)[a.len() + i] == b[i]);
    }
}

/// A failed check with an error detail raises an issue; a passed one none.
proof fn lemma_check_issues(passed: bool, ds: Seq<DetailView>, c: Seq<char>)
    ensures
        passed ==> check_issues(passed, ds, c).len() == 0,
        !passed && has_error(ds) ==> check_issues(passed, ds, c).len() > 0,
    decreases ds.len(),
{
    if !passed && ds.len() > 0 {
        let d = ds.drop_last();
        lemma_check_issues(passed, d, c);
        if has_error(ds) && !(ds.last() is Error) {
            let i = choose|i: int| 0 <= i < ds.len() && (#[trigger] ds[i]) is Error;
            assert(i < ds.len() - 1);
            assert(d[i] == ds[i]);
        }
    }
}

proof fn lemma_story_details(stories: Seq<UserStory>, ts: Seq<PlannedTask>)
    ensures
        story_details(stories, ts).len() == stories.len(),
        forall|i: int| 0 <= i < stories.len() ==> #[trigger] story_details(stories, ts)[i] == story_detail(ts, stories[i].id@),
    decreases stories.len(),
{
    if stories.len() > 0 {
        lemma_story_details(stories.drop_last(), ts);
        assert forall|i: int| 0 <= i < stories.len() implies #[trigger] story_details(stories, ts)[i] == story_detail(
            ts,
            stories[i].id@,
        ) by {
            if i < stories.len() - 1 {
                assert(stories.drop_last()[i] == stories[i]);
            }
        }
    }
}

/// A failed consistency check reports an error.
proof fn lemma_consistency_errors(spec: SpecArtifact, tasks: TasksArtifact)
    ensures
        !consistency_passed(spec, tasks) ==> has_error(consistency_details(spec, tasks)),
{
    let ts = all_tasks(tasks.phases@);
    let ds = consistency_details(spec, tasks);
    let sd = story_details(spec.user_stories@, ts);
    lemma_story_details(spec.user_stories@, ts);
    if !consistency_passed(spec, tasks) {
        if ts.len() == 0 {
            assert(ds[sd.len() as int] is Error);
        } else {
            let i = choose|i: int| 0 <= i < spec.user_stories@.len() && !story_has_tasks(ts, (#[trigger] spec.user_stories@[i]).id@);
            assert(sd[i] == story_detail(ts, spec.user_stories@[i].id@));
            assert(ds[i] == sd[i]);
        }
    }
}

proof fn lemma_dep_details_error(all: Seq<PlannedTask>, id: Seq<char>, deps: Seq<Seq<char>>, j: int)
    requires
        0 <= j < deps.len(),
        !task_exists(all, deps[j]),
    ensures
        has_error(dep_details(all, id, deps)),
    decreases deps.len(),
{
    let d = deps.drop_last();
    if j == deps.len() - 1 {
        let r = dep_details(all, id, d);
        assert(dep_details(all, id, deps)[r.len() as int] is Error);
    } else {
        assert(d[j] == deps[j]);
        lemma_dep_details_error(all, id, d, j);
        if !task_exists(all, deps.last()) {
            lemma_error_in_concat(
                dep_details(all, id, d),
                seq![DetailView::Error("Task "@ + id + " depends on non-existent task "@ + deps.last())],
            );
            assert(dep_details(all, id, d).push(DetailView::Error("Task "@ + id + " depends on non-existent task "@ + deps.last()))
                =~= dep_details(all, id, d) + seq![DetailView::Error("Task "@ + id + " depends on non-existent task "@ + deps.last())]);
        }
    }
}

proof fn lemma_missing_dep_error(all: Seq<PlannedTask>, ts: Seq<PlannedTask>)
    ensures
        !deps_resolve_in(all, ts) ==> has_error(missing_dep_details(all, ts)),
    decreases ts.len(),
{
    if !deps_resolve_in(all, ts) {
        let (k, j) = choose|k: int, j: int|
            0 <= k < ts.len() && 0 <= j < ts[k].dependencies@.len() && !task_exists(all, (#[trigger] ts[k].dependencies@[j])@);
        let init = ts.drop_last();
        if k == ts.len() - 1 {
            let ds = names(ts.last().dependencies@);
            assert(ds[j] == ts[k].dependencies@[j]@);
            lemma_dep_details_error(all, ts.last().id@, ds, j);
            lemma_error_in_concat(missing_dep_details(all, init), dep_details(all, ts.last().id@, ds));
        } else {
            assert(init[k] == ts[k]);
            assert(!deps_resolve_in(all, init));
            lemma_missing_dep_error(all, init);
            lemma_error_in_concat(missing_dep_details(all, init), dep_details(all, ts.last().id@, names(ts.last().dependencies@)));
        }
    }
}

/// A failed feasibility check reports an error.
proof fn lemma_feasibility_errors(r: ValidationCheckResult, tasks: TasksArtifact)
    requires
        feasibility_report(r, tasks),
    ensures
        !r.passed ==> has_error(detail_views(r.details@)),
{
    let ph = tasks.phases@;
    let all = all_tasks(ph);
    if !r.passed {
        if has_dependency_cycle(ph) {
            let p = choose|p: Seq<Seq<char>>| #[trigger] is_dependency_cycle(ph, p) && detail_views(r.details@) == seq![cycle_detail(p)]
                + feasibility_tail(ph);
            assert(detail_views(r.details@)[0] is Error);
        } else {
            lemma_missing_dep_error(all, all);
            let m = missing_dep_details(all, all);
            lemma_error_in_concat(m, seq![checkpoint_detail(ph)]);
            assert(m.push(checkpoint_detail(ph)) =~= m + seq![checkpoint_detail(ph)]);
            lemma_error_in_concat(m.push(checkpoint_detail(ph)), parallel_details(count_parallel(all)));
        }
    }
}

proof fn lemma_new_path_errors(ps: Seq<Seq<char>>, fs: Seq<PathFacts>)
    ensures
        new_path_details(ps, fs).len() > 0 ==> has_error(new_path_details(ps, fs)),
    decreases ps.len(),
{
    if ps.len() > 0 {
        let init = new_path_details(ps.drop_last(), fs);
        lemma_new_path_errors(ps.drop_last(), fs);
        let last = new_path_detail(ps.last(), fs);
        lemma_error_in_concat(init, last);
        if last.len() > 0 {
            assert(last[0] is Error);
        }
    }
}

/// A failed alignment check reports an error.
proof fn lemma_alignment_errors(ev: AlignmentEvidence, plan: PlanArtifact, tasks: TasksArtifact, fs: Seq<PathFacts>, threshold: nat, max: nat)
    ensures
        !alignment_passed(ev, plan, tasks, fs, threshold) ==> has_error(alignment_details(ev, plan, tasks, fs, threshold, max)),
{
    let g = grounds(ev, plan);
    let pp = distinct(g.plan_paths);
    let t = tally(all_tasks(tasks.phases@), g, fs);
    let a = seq![relevant_detail(ev.relevant_files@.len())];
    let b = plan_coverage_details(covered_count(pp, g.areas), pp.len(), threshold);
    let c = new_path_details(distinct(g.new_paths), fs);
    let d = new_files_details(t.2);
    let e = task_coverage_details(t.0, t.1, threshold, max);
    let f = pattern_details(ev.existing_patterns as nat);
    assert(alignment_details(ev, plan, tasks, fs, threshold, max) == a + b + c + d + e + f);
    if !alignment_passed(ev, plan, tasks, fs, threshold) {
        if ev.relevant_files@.len() == 0 {
            assert(a[0] is Error);
        } else if pp.len() > 0 && below(covered_count(pp, g.areas), pp.len(), threshold) {
            assert(b[1] is Error);
        } else if c.len() > 0 {
            lemma_new_path_errors(distinct(g.new_paths), fs);
        } else {
            assert(e[1] is Error);
        }
        lemma_error_in_concat(a, b);
        lemma_error_in_concat(a + b, c);
        lemma_error_in_concat(a + b + c, d);
        lemma_error_in_concat(a + b + c + d, e);
        lemma_error_in_concat(a + b + c + d + e, f);
    }
}

/// A failed constitution check reports an error.
proof fn lemma_constitution_errors(c: ConstitutionCheck, q: EvidenceQualityScore)
    ensures
        !constitution_passed(c, q) ==> has_error(constitution_details(c, q)),
{
    let a = seq![fact_based_detail(c.fact_based, q)];
    let b = principle_error("DRY: "@, c.dry_principle);
    let d = principle_error("Minimal Scope: "@, c.minimal_scope);
    let e = principle_error("Intellectual Honesty: "@, c.intellectual_honesty);
    let tail = if constitution_passed(c, q) {
        seq![DetailView::Info("All constitution principles satisfied"@)]
    } else {
        Seq::empty()
    };
    assert(constitution_details(c, q) == a + b + d + e + tail);
    if !constitution_passed(c, q) {
        if !(c.fact_based.passed && q.meets_minimum) {
            assert(a[0] is Error);
        } else if !c.dry_principle.passed {
            assert(b[0] is Error);
        } else if !c.minimal_scope.passed {
            assert(d[0] is Error);
        } else {
            assert(e[0] is Error);
        }
        lemma_error_in_concat(a, b);
        lemma_error_in_concat(a + b, d);
        lemma_error_in_concat(a + b + d, e);
        lemma_error_in_concat(a + b + d + e, tail);
    }
}

/// The result of a validation passes exactly when it raised no issue, and
/// carries revision feedback exactly when it failed.
proof fn lemma_verdict_issues(
    v: ValidationResult,
    spec: SpecArtifact,
    plan: PlanArtifact,
    tasks: TasksArtifact,
    f: EvidenceFindings,
    threshold: nat,
    max: nat,
)
    requires
        is_verdict(v, spec, plan, tasks, f, threshold, max),
        !f.quality_check.passed ==> has_error(detail_views(f.quality_check.details@)),
    ensures
        v.passed == (v.issues@.len() == 0),
        (v.revision_feedback is Some) == !v.passed,
{
    let s0 = sufficiency_issues(v.evidence_sufficiency);
    let c1 = check_issues(v.spec_plan_consistency.passed, detail_views(v.spec_plan_consistency.details@), "Spec-Plan Consistency"@);
    let c2 = check_issues(v.evidence_quality.passed, detail_views(v.evidence_quality.details@), "Evidence Quality"@);
    let c3 = check_issues(v.evidence_alignment.passed, detail_views(v.evidence_alignment.details@), "Evidence Alignment"@);
    let c4 = check_issues(v.constitution_compliance.passed, detail_views(v.constitution_compliance.details@), "Constitution Compliance"@);
    let c5 = check_issues(v.execution_feasibility.passed, detail_views(v.execution_feasibility.details@), "Execution Feasibility"@);
    assert(result_issues(v) == s0 + c1 + c2 + c3 + c4 + c5);
    lemma_check_issues(v.spec_plan_consistency.passed, detail_views(v.spec_plan_consistency.details@), "Spec-Plan Consistency"@);
    lemma_check_issues(v.evidence_quality.passed, detail_views(v.evidence_quality.details@), "Evidence Quality"@);
    lemma_check_issues(v.evidence_alignment.passed, detail_views(v.evidence_alignment.details@), "Evidence Alignment"@);
    lemma_check_issues(v.constitution_compliance.passed, detail_views(v.constitution_compliance.details@), "Constitution Compliance"@);
    lemma_check_issues(v.execution_feasibility.passed, detail_views(v.execution_feasibility.details@), "Execution Feasibility"@);
    lemma_consistency_errors(spec, tasks);
    lemma_alignment_errors(f.alignment, plan, tasks, f.facts@, threshold, max);
    lemma_constitution_errors(plan.constitution_check, f.quality);
    lemma_feasibility_errors(v.execution_feasibility, tasks);
    let is = issue_views(v.issues@);
    assert(is.len() == v.issues@.len());
    if !v.passed {
        assert(is.len() > 0);
        let sg = all_suggestions(is, string_views(v.warnings@));
        assert(issue_suggestions(is).len() == is.len());
        assert(sg.len() >= is.len());
    }
}

} // verus!
