//! Plan validation results: check outcomes, the issues they raise, and the
//! revision feedback handed back to the planner.

use vstd::prelude::*;
use crate::agent::{configured_agent, AgentConfig, PilotError, PlanAgent, PlanAgentView};
use crate::artifacts::{all_tasks, last_deps, lemma_all_tasks_step, PlannedTask, SpecArtifact, TaskPhase, TasksArtifact, UserStory};
use crate::domain::IssueSeverity;
use crate::graph::{detect_cycle, names};
use crate::paths::{join, join_strings, normalize_path, normalized, overlap, path_matches_any_area, safe_relative, is_safe_relative_path};
use crate::text::{contains_text, decimal, lowercase, push_decimal, push_str, str_contains, to_lowercase};

verus! {

broadcast use vstd::string::group_string_axioms;

/// Kind of change a revision suggestion asks for.
#[derive(Debug, Clone, Copy, PartialEq, Eq, Structural)]
pub enum RevisionCategory {
    DependencyError,
    MissingEvidence,
    SpecMismatch,
    FeasibilityIssue,
    ScopeCreep,
}

/// One problem found by validation and how to fix it.
#[derive(Debug, Clone)]
pub struct RevisionSuggestion {
    pub category: RevisionCategory,
    pub problem: String,
    pub suggested_fix: String,
}

/// Actionable feedback for revising a plan that failed validation.
#[derive(Debug, Clone)]
pub struct RevisionFeedback {
    pub suggestions: Vec<RevisionSuggestion>,
}

/// Traffic-light quality of a validation check.
#[derive(Debug, Clone, Copy, PartialEq, Eq, Structural)]
pub enum QualityTier {
    Green,
    Yellow,
    Red,
}

impl QualityTier {
    /// Green and yellow let planning go on; red stops it.
    pub fn allows_proceed(&self) -> (b: bool)
        ensures
            b == (*self != QualityTier::Red),
    {
        matches!(self, QualityTier::Green | QualityTier::Yellow)
    }
}

/// One line of a check's findings.
#[derive(Debug, Clone)]
pub enum CheckDetail {
    Info(String),
    Warning(String),
    Error(String),
}

/// A check detail as a value.
pub enum DetailView {
    Info(Seq<char>),
    Warning(Seq<char>),
    Error(Seq<char>),
}

impl View for CheckDetail {
    type V = DetailView;

    open spec fn view(&self) -> DetailView {
        match self {
            CheckDetail::Info(m) => DetailView::Info(m@),
            CheckDetail::Warning(m) => DetailView::Warning(m@),
            CheckDetail::Error(m) => DetailView::Error(m@),
        }
    }
}

pub open spec fn detail_message(d: DetailView) -> Seq<char> {
    match d {
        DetailView::Info(m) => m,
        DetailView::Warning(m) => m,
        DetailView::Error(m) => m,
    }
}

pub open spec fn detail_views(ds: Seq<CheckDetail>) -> Seq<DetailView> {
    ds.map_values(|d: CheckDetail| d@)
}

impl CheckDetail {
    /// The detail reports an error.
    pub fn is_error(&self) -> (b: bool)
        ensures
            b == (self@ is Error),
    {
        matches!(self, CheckDetail::Error(_))
    }

    /// The text of the detail, whatever its kind.
    pub fn message(&self) -> (m: &str)
        ensures
            m@ == detail_message(self@),
    {
        match self {
            CheckDetail::Info(m) => m.as_str(),
            CheckDetail::Warning(m) => m.as_str(),
            CheckDetail::Error(m) => m.as_str(),
        }
    }
}

/// Outcome of one validation check.
#[derive(Debug, Clone)]
pub struct ValidationCheckResult {
    pub passed: bool,
    pub tier: QualityTier,
    pub details: Vec<CheckDetail>,
}

/// A problem that makes a plan fail validation.
#[derive(Debug, Clone)]
pub struct ValidationIssue {
    pub severity: IssueSeverity,
    pub category: String,
    pub description: String,
}

/// An issue as a value: severity, category, description.
pub type IssueView = (IssueSeverity, Seq<char>, Seq<char>);

pub open spec fn issue_views(is: Seq<ValidationIssue>) -> Seq<IssueView> {
    is.map_values(|i: ValidationIssue| (i.severity, i.category@, i.description@))
}

/// The error details of a failed check, as issues of the given category;
/// nothing for a check that passed.
pub open spec fn check_issues(passed: bool, details: Seq<DetailView>, category: Seq<char>) -> Seq<IssueView>
    decreases details.len(),
{
    if passed || details.len() == 0 {
        Seq::empty()
    } else {
        let rest = check_issues(passed, details.drop_last(), category);
        match details.last() {
            DetailView::Error(m) => rest.push((IssueSeverity::Error, category, m)),
            _ => rest,
        }
    }
}

/// Turns the error details of a failed check into issues of `category`.
pub fn collect_issues_from(check: &ValidationCheckResult, category: &str, issues: &mut Vec<ValidationIssue>)
    ensures
        issue_views(final(issues)@) == issue_views(old(issues)@) + check_issues(
            check.passed,
            detail_views(check.details@),
            category@,
        ),
{
    let ghost base = issue_views(issues@);
    let ghost ds = detail_views(check.details@);
    if check.passed {
        proof {
            assert(base + check_issues(check.passed, ds, category@) =~= base);
        }
        return;
    }
    let mut i: usize = 0;
    proof {
        assert(ds.subrange(0, 0) =~= Seq::<DetailView>::empty());
        assert(base + check_issues(false, ds.subrange(0, 0), category@) =~= base);
    }
    while i < check.details.len()
        invariant
            0 <= i <= check.details.len(),
            !check.passed,
            ds == detail_views(check.details@),
            issue_views(issues@) == base + check_issues(false, ds.subrange(0, i as int), category@),
        decreases check.details.len() - i,
    {
        let ghost before = issue_views(issues@);
        proof {
            let q = ds.subrange(0, i + 1);
            assert(q.drop_last() =~= ds.subrange(0, i as int));
            assert(q.last() == check.details@[i as int]@);
        }
        match &check.details[i] {
            CheckDetail::Error(msg) => {
                issues.push(
                    ValidationIssue {
                        severity: IssueSeverity::Error,
                        category: category.to_string(),
                        description: msg.clone(),
                    },
                );
                proof {
                    assert(issue_views(issues@) =~= before.push((IssueSeverity::Error, category@, msg@)));
                }
            },
            _ => {},
        }
        i = i + 1;
    }
    proof {
        assert(ds.subrange(0, check.details.len() as int) =~= ds);
    }
}

/// The category and fix suggested for an issue, from its lower-cased
/// category name and its severity.
pub open spec fn revision_for(cat_lower: Seq<char>, severity: IssueSeverity) -> (RevisionCategory, Seq<char>) {
    if contains_text(cat_lower, "evidence"@) || contains_text(cat_lower, "coverage"@) {
        (RevisionCategory::MissingEvidence, "Gather more evidence or adjust scope to available evidence"@)
    } else if contains_text(cat_lower, "depend"@) {
        (RevisionCategory::DependencyError, "Fix task dependencies or remove invalid references"@)
    } else if contains_text(cat_lower, "spec"@) || contains_text(cat_lower, "alignment"@) {
        (RevisionCategory::SpecMismatch, "Align plan with specification requirements"@)
    } else if contains_text(cat_lower, "feasib"@) || contains_text(cat_lower, "execution"@) {
        (RevisionCategory::FeasibilityIssue, "Revise approach or break into smaller tasks"@)
    } else if contains_text(cat_lower, "constitution"@) || contains_text(cat_lower, "scope"@) {
        (RevisionCategory::ScopeCreep, "Review and constrain task scope"@)
    } else {
        match severity {
            IssueSeverity::Critical | IssueSeverity::Error =>
                (RevisionCategory::FeasibilityIssue, "Address critical issue before proceeding"@),
            IssueSeverity::Warning | IssueSeverity::Info =>
                (RevisionCategory::MissingEvidence, "Consider addressing this concern"@),
        }
    }
}

/// A suggestion as a value: category, problem, fix.
pub type SuggestionView = (RevisionCategory, Seq<char>, Seq<char>);

pub open spec fn suggestion_views(s: Seq<RevisionSuggestion>) -> Seq<SuggestionView> {
    s.map_values(|x: RevisionSuggestion| (x.category, x.problem@, x.suggested_fix@))
}

pub open spec fn issue_suggestion(i: IssueView) -> SuggestionView {
    let r = revision_for(lowercase(i.1), i.0);
    (r.0, i.2, r.1)
}

/// One suggestion per issue, in order.
pub open spec fn issue_suggestions(is: Seq<IssueView>) -> Seq<SuggestionView> {
    is.map_values(|i: IssueView| issue_suggestion(i))
}

/// One suggestion per warning that reports evidence gaps, in order.
pub open spec fn gap_suggestions(ws: Seq<Seq<char>>) -> Seq<SuggestionView>
    decreases ws.len(),
{
    if ws.len() == 0 {
        Seq::empty()
    } else {
        let rest = gap_suggestions(ws.drop_last());
        if contains_text(ws.last(), "Evidence gaps"@) {
            rest.push(
                (
                    RevisionCategory::MissingEvidence,
                    ws.last(),
                    "Consider if missing evidence is critical for task success"@,
                ),
            )
        } else {
            rest
        }
    }
}

pub open spec fn all_suggestions(is: Seq<IssueView>, ws: Seq<Seq<char>>) -> Seq<SuggestionView> {
    issue_suggestions(is) + gap_suggestions(ws)
}

pub open spec fn category_name(c: RevisionCategory) -> Seq<char> {
    match c {
        RevisionCategory::DependencyError => "DependencyError"@,
        RevisionCategory::MissingEvidence => "MissingEvidence"@,
        RevisionCategory::SpecMismatch => "SpecMismatch"@,
        RevisionCategory::FeasibilityIssue => "FeasibilityIssue"@,
        RevisionCategory::ScopeCreep => "ScopeCreep"@,
    }
}

pub open spec fn suggestion_line(s: SuggestionView) -> Seq<char> {
    "- "@ + category_name(s.0) + ": "@ + s.1 + " → "@ + s.2
}

/// The feedback section for the planner's next attempt.
pub open spec fn feedback_text(s: Seq<SuggestionView>) -> Seq<char> {
    if s.len() == 0 {
        Seq::empty()
    } else {
        "## Previous Validation Feedback\nAddress these issues in the revised plan:\n"@
            + join(s.map_values(|x: SuggestionView| suggestion_line(x)), "\n"@)
    }
}

/// The revision category and fix for an issue whose category name has
/// already been lower-cased.
pub fn categorize_lowered(cat_lower: &str, severity: IssueSeverity) -> (r: (RevisionCategory, String))
    ensures
        r.0 == revision_for(cat_lower@, severity).0,
        r.1@ == revision_for(cat_lower@, severity).1,
{
    let (cat, fix) = if str_contains(cat_lower, "evidence") || str_contains(cat_lower, "coverage") {
        (RevisionCategory::MissingEvidence, "Gather more evidence or adjust scope to available evidence")
    } else if str_contains(cat_lower, "depend") {
        (RevisionCategory::DependencyError, "Fix task dependencies or remove invalid references")
    } else if str_contains(cat_lower, "spec") || str_contains(cat_lower, "alignment") {
        (RevisionCategory::SpecMismatch, "Align plan with specification requirements")
    } else if str_contains(cat_lower, "feasib") || str_contains(cat_lower, "execution") {
        (RevisionCategory::FeasibilityIssue, "Revise approach or break into smaller tasks")
    } else if str_contains(cat_lower, "constitution") || str_contains(cat_lower, "scope") {
        (RevisionCategory::ScopeCreep, "Review and constrain task scope")
    } else {
        match severity {
            IssueSeverity::Critical | IssueSeverity::Error =>
                (RevisionCategory::FeasibilityIssue, "Address critical issue before proceeding"),
            IssueSeverity::Warning | IssueSeverity::Info =>
                (RevisionCategory::MissingEvidence, "Consider addressing this concern"),
        }
    };
    (cat, fix.to_string())
}

fn category_str(c: RevisionCategory) -> (s: &'static str)
    ensures
        s@ == category_name(c),
{
    match c {
        RevisionCategory::DependencyError => "DependencyError",
        RevisionCategory::MissingEvidence => "MissingEvidence",
        RevisionCategory::SpecMismatch => "SpecMismatch",
        RevisionCategory::FeasibilityIssue => "FeasibilityIssue",
        RevisionCategory::ScopeCreep => "ScopeCreep",
    }
}

impl RevisionFeedback {
    /// The revision category and fix for an issue, from its category name
    /// (compared case-insensitively) and its severity.
    fn categorize_issue(issue: &ValidationIssue) -> (r: (RevisionCategory, String))
        ensures
            r.0 == revision_for(lowercase(issue.category@), issue.severity).0,
            r.1@ == revision_for(lowercase(issue.category@), issue.severity).1,
    {
        let lower = to_lowercase(issue.category.as_str());
        categorize_lowered(lower.as_str(), issue.severity)
    }

    /// Feedback from the issues and warnings of a failed validation: one
    /// suggestion per issue, then one per warning about evidence gaps;
    /// `None` when that gives no suggestion.
    pub fn from_issues(issues: &[ValidationIssue], warnings: &[String]) -> (r: Option<Self>)
        ensures
            r is None <==> all_suggestions(issue_views(issues@), warnings@.map_values(|w: String| w@)).len() == 0,
            r matches Some(f) ==> suggestion_views(f.suggestions@) == all_suggestions(
                issue_views(issues@),
                warnings@.map_values(|w: String| w@),
            ),
    {
        let ghost iv = issue_views(issues@);
        let ghost wv = warnings@.map_values(|w: String| w@);
        if issues.len() == 0 && warnings.len() == 0 {
            proof {
                assert(issue_suggestions(iv) =~= Seq::<SuggestionView>::empty());
                assert(gap_suggestions(wv) =~= Seq::<SuggestionView>::empty());
            }
            return None;
        }
        let mut suggestions: Vec<RevisionSuggestion> = Vec::new();
        let mut i: usize = 0;
        while i < issues.len()
            invariant
                0 <= i <= issues.len(),
                iv == issue_views(issues@),
                suggestion_views(suggestions@) == issue_suggestions(iv.subrange(0, i as int)),
            decreases issues.len() - i,
        {
            let (category, suggested_fix) = Self::categorize_issue(&issues[i]);
            let ghost before = suggestion_views(suggestions@);
            suggestions.push(
                RevisionSuggestion { category, problem: issues[i].description.clone(), suggested_fix },
            );
            proof {
                assert(iv[i as int] == (issues@[i as int].severity, issues@[i as int].category@, issues@[i as int].description@));
                assert(suggestion_views(suggestions@) =~= before.push(issue_suggestion(iv[i as int])));
                assert(issue_suggestions(iv.subrange(0, i + 1)) =~= issue_suggestions(iv.subrange(0, i as int)).push(
                    issue_suggestion(iv[i as int]),
                ));
            }
            i = i + 1;
        }
        proof {
            assert(iv.subrange(0, issues.len() as int) =~= iv);
        }
        let ghost head = suggestion_views(suggestions@);
        let mut j: usize = 0;
        proof {
            assert(wv.subrange(0, 0) =~= Seq::<Seq<char>>::empty());
            assert(head + gap_suggestions(wv.subrange(0, 0)) =~= head);
        }
        while j < warnings.len()
            invariant
                0 <= j <= warnings.len(),
                wv == warnings@.map_values(|w: String| w@),
                suggestion_views(suggestions@) == head + gap_suggestions(wv.subrange(0, j as int)),
            decreases warnings.len() - j,
        {
            let ghost before = suggestion_views(suggestions@);
            proof {
                let q = wv.subrange(0, j + 1);
                assert(q.drop_last() =~= wv.subrange(0, j as int));
                assert(q.last() == warnings@[j as int]@);
            }
            if str_contains(warnings[j].as_str(), "Evidence gaps") {
                suggestions.push(
                    RevisionSuggestion {
                        category: RevisionCategory::MissingEvidence,
                        problem: warnings[j].clone(),
                        suggested_fix: "Consider if missing evidence is critical for task success".to_string(),
                    },
                );
                proof {
                    assert(suggestion_views(suggestions@) =~= before.push(
                        (
                            RevisionCategory::MissingEvidence,
                            warnings@[j as int]@,
                            "Consider if missing evidence is critical for task success"@,
                        ),
                    ));
                }
            }
            j = j + 1;
        }
        proof {
            assert(wv.subrange(0, warnings.len() as int) =~= wv);
        }
        if suggestions.len() == 0 {
            None
        } else {
            Some(RevisionFeedback { suggestions })
        }
    }

    /// The feedback as a prompt section; empty when there is no suggestion.
    pub fn format_for_llm(&self) -> (s: String)
        ensures
            s@ == feedback_text(suggestion_views(self.suggestions@)),
    {
        let ghost sv = suggestion_views(self.suggestions@);
        let ghost lines = sv.map_values(|x: SuggestionView| suggestion_line(x));
        if self.suggestions.len() == 0 {
            return String::new();
        }
        let mut s = String::new();
        push_str(&mut s, "## Previous Validation Feedback\nAddress these issues in the revised plan:\n");
        let ghost head = s@;
        let mut i: usize = 0;
        proof {
            assert(lines.subrange(0, 0) =~= Seq::<Seq<char>>::empty());
            assert(s@ =~= head + join(lines.subrange(0, 0), "\n"@));
        }
        while i < self.suggestions.len()
            invariant
                0 <= i <= self.suggestions.len(),
                sv == suggestion_views(self.suggestions@),
                lines == sv.map_values(|x: SuggestionView| suggestion_line(x)),
                s@ == head + join(lines.subrange(0, i as int), "\n"@),
            decreases self.suggestions.len() - i,
        {
            let ghost before = s@;
            let sug = &self.suggestions[i];
            if i > 0 {
                push_str(&mut s, "\n");
            }
            push_str(&mut s, "- ");
            push_str(&mut s, category_str(sug.category));
            push_str(&mut s, ": ");
            push_str(&mut s, sug.problem.as_str());
            push_str(&mut s, " → ");
            push_str(&mut s, sug.suggested_fix.as_str());
            proof {
                let q = lines.subrange(0, i + 1);
                assert(q.drop_last() =~= lines.subrange(0, i as int));
                assert(q.last() == suggestion_line(sv[i as int]));
                if i == 0 {
                    assert(s@ =~= head + join(q, "\n"@));
                } else {
                    assert(s@ =~= head + join(q, "\n"@));
                }
            }
            i = i + 1;
        }
        proof {
            assert(lines.subrange(0, self.suggestions.len() as int) =~= lines);
        }
        s
    }
}

/// Validates plans against their specification and the gathered evidence.
pub struct PlanValidator {
    executor: PlanAgent,
    working_dir: String,
}

pub open spec fn tier_for(passed: bool) -> QualityTier {
    if passed {
        QualityTier::Green
    } else {
        QualityTier::Red
    }
}

/// The task belongs to the user story `id`.
pub open spec fn assigned_to(t: PlannedTask, id: Seq<char>) -> bool {
    t.user_story matches Some(u) && u@ == id
}

/// Some task is assigned to the user story `id`.
pub open spec fn story_has_tasks(ts: Seq<PlannedTask>, id: Seq<char>) -> bool {
    exists|k: int| 0 <= k < ts.len() && assigned_to(#[trigger] ts[k], id)
}

pub open spec fn story_detail(ts: Seq<PlannedTask>, id: Seq<char>) -> DetailView {
    if story_has_tasks(ts, id) {
        DetailView::Info("User story "@ + id + " has tasks"@)
    } else {
        DetailView::Error("User story "@ + id + " missing tasks"@)
    }
}

pub open spec fn story_details(stories: Seq<UserStory>, ts: Seq<PlannedTask>) -> Seq<DetailView>
    decreases stories.len(),
{
    if stories.len() == 0 {
        Seq::empty()
    } else {
        story_details(stories.drop_last(), ts).push(story_detail(ts, stories.last().id@))
    }
}

pub open spec fn stories_covered(stories: Seq<UserStory>, ts: Seq<PlannedTask>) -> bool {
    forall|i: int| 0 <= i < stories.len() ==> story_has_tasks(ts, (#[trigger] stories[i]).id@)
}

pub open spec fn task_total_detail(count: nat, phases: nat) -> DetailView {
    if count == 0 {
        DetailView::Error("No tasks defined"@)
    } else {
        DetailView::Info(decimal(count) + " tasks across "@ + decimal(phases) + " phases"@)
    }
}

/// Spec-plan consistency: every user story has a task, and there is a task.
pub open spec fn consistency_passed(spec: SpecArtifact, tasks: TasksArtifact) -> bool {
    stories_covered(spec.user_stories@, all_tasks(tasks.phases@)) && all_tasks(tasks.phases@).len() > 0
}

pub open spec fn consistency_details(spec: SpecArtifact, tasks: TasksArtifact) -> Seq<DetailView> {
    story_details(spec.user_stories@, all_tasks(tasks.phases@)).push(
        task_total_detail(all_tasks(tasks.phases@).len(), tasks.phases@.len()),
    )
}

/// Task `a` (its last definition) depends directly on `b`.
pub open spec fn depends_on(phases: Seq<TaskPhase>, a: Seq<char>, b: Seq<char>) -> bool {
    last_deps(all_tasks(phases), a) matches Some(d) && d.contains(b)
}

/// Some chain of task dependencies leads from a task back to itself.
pub open spec fn has_dependency_cycle(phases: Seq<TaskPhase>) -> bool {
    exists|w: Seq<Seq<char>>|
        w.len() >= 2 && w[0] == w.last() && forall|i: int| 0 <= i < w.len() - 1 ==> #[trigger] depends_on(phases, w[i], w[i + 1])
}

/// A dependency path whose last task already occurs earlier on it.
pub open spec fn is_dependency_cycle(phases: Seq<TaskPhase>, p: Seq<Seq<char>>) -> bool {
    &&& p.len() >= 2
    &&& exists|j: int| 0 <= j < p.len() - 1 && p[j] == p.last()
    &&& forall|i: int| 0 <= i < p.len() - 1 ==> #[trigger] depends_on(phases, p[i], p[i + 1])
}

pub open spec fn cycle_detail(p: Seq<Seq<char>>) -> DetailView {
    DetailView::Error("Circular dependency: "@ + join(p, " -> "@))
}

/// Some task has the id `id`.
pub open spec fn task_exists(ts: Seq<PlannedTask>, id: Seq<char>) -> bool {
    exists|k: int| 0 <= k < ts.len() && (#[trigger] ts[k]).id@ == id
}

pub open spec fn dep_details(all: Seq<PlannedTask>, id: Seq<char>, deps: Seq<Seq<char>>) -> Seq<DetailView>
    decreases deps.len(),
{
    if deps.len() == 0 {
        Seq::empty()
    } else {
        let rest = dep_details(all, id, deps.drop_last());
        if task_exists(all, deps.last()) {
            rest
        } else {
            rest.push(DetailView::Error("Task "@ + id + " depends on non-existent task "@ + deps.last()))
        }
    }
}

/// One error per dependency that names no task, task by task.
pub open spec fn missing_dep_details(all: Seq<PlannedTask>, ts: Seq<PlannedTask>) -> Seq<DetailView>
    decreases ts.len(),
{
    if ts.len() == 0 {
        Seq::empty()
    } else {
        missing_dep_details(all, ts.drop_last()) + dep_details(all, ts.last().id@, names(ts.last().dependencies@))
    }
}

/// Every dependency of the tasks `ts` names a task of `all`.
pub open spec fn deps_resolve_in(all: Seq<PlannedTask>, ts: Seq<PlannedTask>) -> bool {
    forall|k: int, j: int|
        0 <= k < ts.len() && 0 <= j < ts[k].dependencies@.len() ==> task_exists(
            all,
            (#[trigger] ts[k].dependencies@[j])@,
        )
}

/// Every dependency names an existing task.
pub open spec fn deps_resolve(all: Seq<PlannedTask>) -> bool {
    deps_resolve_in(all, all)
}

pub open spec fn checkpoint_detail(phases: Seq<TaskPhase>) -> DetailView {
    if forall|p: int| 0 <= p < phases.len() ==> (#[trigger] phases[p]).checkpoint is Some {
        DetailView::Info("All phases have checkpoints"@)
    } else {
        DetailView::Warning("Some phases missing checkpoints"@)
    }
}

pub open spec fn parallel_details(n: nat) -> Seq<DetailView> {
    if n > 0 {
        seq![DetailView::Info(decimal(n) + " tasks can run in parallel"@)]
    } else {
        Seq::empty()
    }
}

/// Feasibility findings after the cycle report: missing dependencies,
/// checkpoints, parallelism.
pub open spec fn feasibility_tail(phases: Seq<TaskPhase>) -> Seq<DetailView> {
    missing_dep_details(all_tasks(phases), all_tasks(phases)).push(checkpoint_detail(phases))
        + parallel_details(crate::artifacts::count_parallel(all_tasks(phases)))
}

pub open spec fn feasibility_passed(phases: Seq<TaskPhase>) -> bool {
    !has_dependency_cycle(phases) && deps_resolve(all_tasks(phases))
}

impl PlanValidator {
    pub closed spec fn agent(&self) -> PlanAgentView {
        self.executor@
    }

    pub closed spec fn dir(&self) -> Seq<char> {
        self.working_dir@
    }

    /// A validator working in `working_dir` with a planning agent built
    /// from `agent_config`.
    pub fn with_config(working_dir: &str, agent_config: &AgentConfig) -> (r: Result<Self, PilotError>)
        ensures
            r matches Ok(v) && v.agent() == configured_agent(working_dir@, *agent_config) && v.dir() == working_dir@,
    {
        match PlanAgent::new(working_dir, agent_config) {
            Ok(executor) => Ok(PlanValidator { executor, working_dir: working_dir.to_string() }),
            Err(e) => Err(e),
        }
    }

    fn story_covered(tasks: &TasksArtifact, id: &String) -> (b: bool)
        ensures
            b == story_has_tasks(all_tasks(tasks.phases@), id@),
    {
        let ghost ps = tasks.phases@;
        let mut i: usize = 0;
        proof {
            assert(ps.subrange(0, 0) =~= Seq::<TaskPhase>::empty());
        }
        while i < tasks.phases.len()
            invariant
                0 <= i <= tasks.phases.len(),
                ps == tasks.phases@,
                !story_has_tasks(all_tasks(ps.subrange(0, i as int)), id@),
            decreases tasks.phases.len() - i,
        {
            let ts = &tasks.phases[i].tasks;
            let ghost before = all_tasks(ps.subrange(0, i as int));
            proof {
                lemma_all_tasks_step(ps, i as int);
            }
            let mut j: usize = 0;
            while j < ts.len()
                invariant
                    0 <= j <= ts.len(),
                    0 <= i < ps.len(),
                    ps == tasks.phases@,
                    ts@ == ps[i as int].tasks@,
                    all_tasks(ps.subrange(0, i + 1)) == before + ts@,
                    !story_has_tasks(before, id@),
                    forall|k: int| 0 <= k < j ==> !assigned_to(#[trigger] ts@[k], id@),
                decreases ts.len() - j,
            {
                match &ts[j].user_story {
                    Some(u) => {
                        if *u == *id {
                            proof {
                                let all = all_tasks(ps.subrange(0, i + 1));
                                assert(all[before.len() + j] == ts@[j as int]);
                                lemma_all_tasks_grow(ps, i + 1);
                                assert(all_tasks(ps)[before.len() + j] == ts@[j as int]);
                            }
                            return true;
                        }
                    },
                    None => {},
                }
                j = j + 1;
            }
            proof {
                let all = before + ts@;
                assert forall|k: int| 0 <= k < all.len() implies !assigned_to(#[trigger] all[k], id@) by {
                    if k >= before.len() {
                        assert(all[k] == ts@[k - before.len()]);
                    } else {
                        assert(all[k] == before[k]);
                    }
                }
            }
            i = i + 1;
        }
        proof {
            assert(ps.subrange(0, ps.len() as int) =~= ps);
        }
        false
    }

    /// Checks that every user story has tasks and that some task exists.
    pub fn check_spec_plan_consistency(&self, spec: &SpecArtifact, tasks: &TasksArtifact) -> (r: ValidationCheckResult)
        requires
            tasks.task_count() <= usize::MAX,
        ensures
            r.passed == consistency_passed(*spec, *tasks),
            r.tier == tier_for(r.passed),
            detail_views(r.details@) == consistency_details(*spec, *tasks),
    {
        let ghost ss = spec.user_stories@;
        let ghost all = all_tasks(tasks.phases@);
        let mut details: Vec<CheckDetail> = Vec::new();
        let mut covered = true;
        let mut i: usize = 0;
        proof {
            assert(ss.subrange(0, 0) =~= Seq::<UserStory>::empty());
            assert(detail_views(details@) =~= Seq::<DetailView>::empty());
        }
        while i < spec.user_stories.len()
            invariant
                0 <= i <= spec.user_stories.len(),
                ss == spec.user_stories@,
                all == all_tasks(tasks.phases@),
                detail_views(details@) == story_details(ss.subrange(0, i as int), all),
                covered == stories_covered(ss.subrange(0, i as int), all),
            decreases spec.user_stories.len() - i,
        {
            let story = &spec.user_stories[i];
            let ghost before = detail_views(details@);
            proof {
                let q = ss.subrange(0, i + 1);
                assert(q.drop_last() =~= ss.subrange(0, i as int));
                assert(q.last() == ss[i as int]);
            }
            let has = Self::story_covered(tasks, &story.id);
            let mut msg = String::new();
            push_str(&mut msg, "User story ");
            push_str(&mut msg, story.id.as_str());
            if has {
                push_str(&mut msg, " has tasks");
                details.push(CheckDetail::Info(msg));
            } else {
                push_str(&mut msg, " missing tasks");
                details.push(CheckDetail::Error(msg));
                covered = false;
            }
            proof {
                let q = ss.subrange(0, i + 1);
                assert(detail_views(details@) =~= before.push(story_detail(all, ss[i as int].id@)));
                if has {
                    assert forall|k: int| 0 <= k < q.len() implies story_has_tasks(all, (#[trigger] q[k]).id@) == (
                    story_has_tasks(all, q[k].id@)) by {}
                    if stories_covered(ss.subrange(0, i as int), all) {
                        assert forall|k: int| 0 <= k < q.len() implies story_has_tasks(all, (#[trigger] q[k]).id@) by {
                            if k < i {
                                assert(q[k] == ss.subrange(0, i as int)[k]);
                            }
                        }
                    } else {
                        let k0 = choose|k: int| 0 <= k < i && !story_has_tasks(all, (#[trigger] ss.subrange(0, i as int)[k]).id@);
                        assert(q[k0] == ss.subrange(0, i as int)[k0]);
                    }
                } else {
                    assert(q[i as int] == ss[i as int]);
                    assert(!story_has_tasks(all, q[i as int].id@));
                }
            }
            i = i + 1;
        }
        proof {
            assert(ss.subrange(0, spec.user_stories.len() as int) =~= ss);
        }
        let total = tasks.total_tasks();
        let ghost before = detail_views(details@);
        if total == 0 {
            details.push(CheckDetail::Error("No tasks defined".to_string()));
        } else {
            let mut msg = String::new();
            push_decimal(&mut msg, total as u64);
            push_str(&mut msg, " tasks across ");
            push_decimal(&mut msg, tasks.phases.len() as u64);
            push_str(&mut msg, " phases");
            details.push(CheckDetail::Info(msg));
        }
        proof {
            assert(detail_views(details@) =~= before.push(task_total_detail(all.len(), tasks.phases@.len())));
        }
        let passed = covered && total > 0;
        ValidationCheckResult { passed, tier: if passed { QualityTier::Green } else { QualityTier::Red }, details }
    }
}

impl PlanValidator {
    pub(crate) fn task_id_exists(tasks: &TasksArtifact, id: &String) -> (b: bool)
        ensures
            b == task_exists(all_tasks(tasks.phases@), id@),
    {
        let ghost ps = tasks.phases@;
        let mut i: usize = 0;
        proof {
            assert(ps.subrange(0, 0) =~= Seq::<TaskPhase>::empty());
        }
        while i < tasks.phases.len()
            invariant
                0 <= i <= tasks.phases.len(),
                ps == tasks.phases@,
                !task_exists(all_tasks(ps.subrange(0, i as int)), id@),
            decreases tasks.phases.len() - i,
        {
            let ts = &tasks.phases[i].tasks;
            let ghost before = all_tasks(ps.subrange(0, i as int));
            proof {
                lemma_all_tasks_step(ps, i as int);
            }
            let mut j: usize = 0;
            while j < ts.len()
                invariant
                    0 <= j <= ts.len(),
                    0 <= i < ps.len(),
                    ps == tasks.phases@,
                    ts@ == ps[i as int].tasks@,
                    all_tasks(ps.subrange(0, i + 1)) == before + ts@,
                    !task_exists(before, id@),
                    forall|k: int| 0 <= k < j ==> (#[trigger] ts@[k]).id@ != id@,
                decreases ts.len() - j,
            {
                if ts[j].id == *id {
                    proof {
                        let all = all_tasks(ps.subrange(0, i + 1));
                        assert(all[before.len() + j] == ts@[j as int]);
                        lemma_all_tasks_grow(ps, i + 1);
                        assert(all_tasks(ps)[before.len() + j] == ts@[j as int]);
                    }
                    return true;
                }
                j = j + 1;
            }
            proof {
                let all = before + ts@;
                assert forall|k: int| 0 <= k < all.len() implies (#[trigger] all[k]).id@ != id@ by {
                    if k >= before.len() {
                        assert(all[k] == ts@[k - before.len()]);
                    } else {
                        assert(all[k] == before[k]);
                    }
                }
            }
            i = i + 1;
        }
        proof {
            assert(ps.subrange(0, ps.len() as int) =~= ps);
        }
        false
    }

    /// Appends an error for each dependency of `task` that names no task.
    fn push_dep_errors(tasks: &TasksArtifact, task: &PlannedTask, details: &mut Vec<CheckDetail>) -> (ok: bool)
        ensures
            detail_views(final(details)@) == detail_views(old(details)@) + dep_details(
                all_tasks(tasks.phases@),
                task.id@,
                names(task.dependencies@),
            ),
            ok == forall|j: int|
                0 <= j < task.dependencies@.len() ==> task_exists(
                    all_tasks(tasks.phases@),
                    (#[trigger] task.dependencies@[j])@,
                ),
    {
        let ghost all = all_tasks(tasks.phases@);
        let ghost ds = names(task.dependencies@);
        let ghost base = detail_views(details@);
        let mut ok = true;
        let mut k: usize = 0;
        proof {
            assert(ds.subrange(0, 0) =~= Seq::<Seq<char>>::empty());
            assert(base + dep_details(all, task.id@, ds.subrange(0, 0)) =~= base);
        }
        while k < task.dependencies.len()
            invariant
                0 <= k <= task.dependencies.len(),
                all == all_tasks(tasks.phases@),
                ds == names(task.dependencies@),
                detail_views(details@) == base + dep_details(all, task.id@, ds.subrange(0, k as int)),
                ok == forall|j: int| 0 <= j < k ==> task_exists(all, (#[trigger] task.dependencies@[j])@),
            decreases task.dependencies.len() - k,
        {
            let dep = &task.dependencies[k];
            let ghost before = detail_views(details@);
            proof {
                let q = ds.subrange(0, k + 1);
                assert(q.drop_last() =~= ds.subrange(0, k as int));
                assert(q.last() == dep@);
            }
            if !Self::task_id_exists(tasks, dep) {
                let mut msg = String::new();
                push_str(&mut msg, "Task ");
                push_str(&mut msg, task.id.as_str());
                push_str(&mut msg, " depends on non-existent task ");
                push_str(&mut msg, dep.as_str());
                details.push(CheckDetail::Error(msg));
                ok = false;
                proof {
                    assert(detail_views(details@) =~= before.push(
                        DetailView::Error("Task "@ + task.id@ + " depends on non-existent task "@ + dep@),
                    ));
                }
            }
            k = k + 1;
        }
        proof {
            assert(ds.subrange(0, task.dependencies.len() as int) =~= ds);
        }
        ok
    }

    /// Appends an error for each dependency, of any task, that names no task.
    fn push_missing_deps(tasks: &TasksArtifact, details: &mut Vec<CheckDetail>) -> (ok: bool)
        ensures
            detail_views(final(details)@) == detail_views(old(details)@) + missing_dep_details(
                all_tasks(tasks.phases@),
                all_tasks(tasks.phases@),
            ),
            ok == deps_resolve(all_tasks(tasks.phases@)),
    {
        let ghost ps = tasks.phases@;
        let ghost all = all_tasks(ps);
        let ghost base = detail_views(details@);
        let mut ok = true;
        let mut i: usize = 0;
        proof {
            assert(ps.subrange(0, 0) =~= Seq::<TaskPhase>::empty());
            assert(base + missing_dep_details(all, all_tasks(ps.subrange(0, 0))) =~= base);
        }
        while i < tasks.phases.len()
            invariant
                0 <= i <= tasks.phases.len(),
                ps == tasks.phases@,
                all == all_tasks(ps),
                detail_views(details@) == base + missing_dep_details(all, all_tasks(ps.subrange(0, i as int))),
                ok == deps_resolve_in(all, all_tasks(ps.subrange(0, i as int))),
            decreases tasks.phases.len() - i,
        {
            let ts = &tasks.phases[i].tasks;
            let ghost before = all_tasks(ps.subrange(0, i as int));
            proof {
                lemma_all_tasks_step(ps, i as int);
                assert(before + ts@.subrange(0, 0) =~= before);
            }
            let mut j: usize = 0;
            while j < ts.len()
                invariant
                    0 <= j <= ts.len(),
                    0 <= i < ps.len(),
                    ps == tasks.phases@,
                    all == all_tasks(ps),
                    ts@ == ps[i as int].tasks@,
                    all_tasks(ps.subrange(0, i + 1)) == before + ts@,
                    detail_views(details@) == base + missing_dep_details(all, before + ts@.subrange(0, j as int)),
                    ok == deps_resolve_in(all, before + ts@.subrange(0, j as int)),
                decreases ts.len() - j,
            {
                let ghost pre = before + ts@.subrange(0, j as int);
                let ghost cur = before + ts@.subrange(0, j + 1);
                proof {
                    assert(cur.drop_last() =~= pre);
                    assert(cur.last() == ts@[j as int]);
                }
                let task_ok = Self::push_dep_errors(tasks, &ts[j], details);
                proof {
                    assert(detail_views(details@) =~= base + missing_dep_details(all, cur));
                    if ok && task_ok {
                        assert forall|k: int, d: int| 0 <= k < cur.len() && 0 <= d < cur[k].dependencies@.len()
                            implies task_exists(all, (#[trigger] cur[k].dependencies@[d])@) by {
                            if k < pre.len() {
                                assert(cur[k] == pre[k]);
                            } else {
                                assert(cur[k] == ts@[j as int]);
                            }
                        }
                    } else if !ok {
                        let (k0, d0) = choose|k: int, d: int| 0 <= k < pre.len() && 0 <= d < pre[k].dependencies@.len()
                            && !task_exists(all, (#[trigger] pre[k].dependencies@[d])@);
                        assert(cur[k0] == pre[k0]);
                    } else {
                        let d0 = choose|d: int| 0 <= d < ts@[j as int].dependencies@.len()
                            && !task_exists(all, (#[trigger] ts@[j as int].dependencies@[d])@);
                        assert(cur[pre.len() as int] == ts@[j as int]);
                    }
                }
                ok = ok && task_ok;
                j = j + 1;
            }
            proof {
                assert(ts@.subrange(0, ts.len() as int) =~= ts@);
            }
            i = i + 1;
        }
        proof {
            assert(ps.subrange(0, ps.len() as int) =~= ps);
        }
        ok
    }
}

/// The dependency map of the tasks has a cycle exactly when the tasks do,
/// and its cycle paths are the tasks' cycle paths.
proof fn lemma_map_cycles(tasks: TasksArtifact, m: crate::graph::DependencyMap)
    requires
        forall|x: Seq<char>| #[trigger] m.lookup(x) == last_deps(all_tasks(tasks.phases@), x),
    ensures
        m.has_cycle() <==> has_dependency_cycle(tasks.phases@),
        forall|p: Seq<Seq<char>>| #[trigger] m.is_cycle_path(p) ==> is_dependency_cycle(tasks.phases@, p),
{
    let ps = tasks.phases@;
    assert forall|a: Seq<char>, b: Seq<char>| #[trigger] m.edge(a, b) == depends_on(ps, a, b) by {
        assert(m.lookup(a) == last_deps(all_tasks(ps), a));
    }
    if m.has_cycle() {
        let w = choose|w: Seq<Seq<char>>| m.is_closed_walk(w);
        assert forall|i: int| 0 <= i < w.len() - 1 implies #[trigger] depends_on(ps, w[i], w[i + 1]) by {
            assert(m.edge(w[i], w[i + 1]));
        }
    }
    if has_dependency_cycle(ps) {
        let w = choose|w: Seq<Seq<char>>|
            w.len() >= 2 && w[0] == w.last() && forall|i: int| 0 <= i < w.len() - 1 ==> #[trigger] depends_on(ps, w[i], w[i + 1]);
        assert forall|i: int| 0 <= i < w.len() - 1 implies #[trigger] m.edge(w[i], w[i + 1]) by {
            assert(depends_on(ps, w[i], w[i + 1]));
        }
        assert(m.is_closed_walk(w));
    }
    assert forall|p: Seq<Seq<char>>| #[trigger] m.is_cycle_path(p) implies is_dependency_cycle(ps, p) by {
        assert forall|i: int| 0 <= i < p.len() - 1 implies #[trigger] depends_on(ps, p[i], p[i + 1]) by {
            assert(m.edge(p[i], p[i + 1]));
        }
    }
}

impl PlanValidator {
    /// Checks that the tasks can be executed: no dependency cycle, no
    /// dependency on a missing task; also reports checkpoints and parallelism.
    pub fn check_execution_feasibility(&self, tasks: &TasksArtifact) -> (r: ValidationCheckResult)
        requires
            tasks.task_count() <= usize::MAX,
        ensures
            r.passed == feasibility_passed(tasks.phases@),
            r.tier == tier_for(r.passed),
            has_dependency_cycle(tasks.phases@) ==> exists|p: Seq<Seq<char>>|
                #[trigger] is_dependency_cycle(tasks.phases@, p) && detail_views(r.details@) == seq![cycle_detail(p)]
                    + feasibility_tail(tasks.phases@),
            !has_dependency_cycle(tasks.phases@) ==> detail_views(r.details@) == feasibility_tail(tasks.phases@),
    {
        let ghost ps = tasks.phases@;
        let mut details: Vec<CheckDetail> = Vec::new();
        let deps = tasks.to_dependency_map();
        proof {
            lemma_map_cycles(*tasks, deps);
        }
        let cycle = detect_cycle(&deps);
        let ghost head: Seq<DetailView> = Seq::empty();
        let no_cycle = match &cycle {
            Some(c) => {
                let joined = join_strings(c, " -> ");
                let mut msg = String::new();
                push_str(&mut msg, "Circular dependency: ");
                push_str(&mut msg, joined.as_str());
                details.push(CheckDetail::Error(msg));
                proof {
                    assert(names(c@) =~= c@.map_values(|x: String| x@));
                    head = seq![cycle_detail(names(c@))];
                    assert(detail_views(details@) =~= head);
                }
                false
            },
            None => {
                proof {
                    assert(detail_views(details@) =~= head);
                }
                true
            },
        };
        let deps_ok = Self::push_missing_deps(tasks, &mut details);
        let mut all_checkpoints = true;
        let mut i: usize = 0;
        while i < tasks.phases.len()
            invariant
                0 <= i <= tasks.phases.len(),
                ps == tasks.phases@,
                all_checkpoints == forall|p: int| 0 <= p < i ==> (#[trigger] ps[p]).checkpoint is Some,
            decreases tasks.phases.len() - i,
        {
            if tasks.phases[i].checkpoint.is_none() {
                all_checkpoints = false;
            }
            i = i + 1;
        }
        let ghost mid = detail_views(details@);
        if all_checkpoints {
            details.push(CheckDetail::Info("All phases have checkpoints".to_string()));
        } else {
            details.push(CheckDetail::Warning("Some phases missing checkpoints".to_string()));
        }
        proof {
            assert(detail_views(details@) =~= mid.push(checkpoint_detail(ps)));
        }
        let parallel_count = tasks.parallel_tasks();
        let ghost mid2 = detail_views(details@);
        if parallel_count > 0 {
            let mut msg = String::new();
            push_decimal(&mut msg, parallel_count as u64);
            push_str(&mut msg, " tasks can run in parallel");
            details.push(CheckDetail::Info(msg));
        }
        proof {
            assert(detail_views(details@) =~= mid2 + parallel_details(parallel_count as nat));
            assert(detail_views(details@) =~= head + feasibility_tail(ps));
        }
        let passed = no_cycle && deps_ok;
        ValidationCheckResult { passed, tier: if passed { QualityTier::Green } else { QualityTier::Red }, details }
    }
}

/// Some planned new path normalises to `nf`.
pub open spec fn is_planned_new(new_paths: Seq<Seq<char>>, nf: Seq<char>) -> bool {
    exists|k: int| 0 <= k < new_paths.len() && normalized(#[trigger] new_paths[k]) == Some(nf)
}

/// `file` overlaps one of `paths`.
pub open spec fn overlaps_any(file: Seq<char>, paths: Seq<Seq<char>>) -> bool {
    exists|k: int| 0 <= k < paths.len() && overlap(file, #[trigger] paths[k])
}

/// Whether a task's file is backed by evidence, and whether it is a planned
/// new file. `new_path_safe` says whether creating the file stays inside the
/// working directory; `inside_working_dir` whether the existing file
/// resolves inside it.
pub open spec fn evidence_backing(
    file: Seq<char>,
    evidence_files: Seq<Seq<char>>,
    plan_paths: Seq<Seq<char>>,
    new_paths: Seq<Seq<char>>,
    evidence_areas: Seq<Seq<char>>,
    new_path_safe: bool,
    inside_working_dir: bool,
) -> (bool, bool) {
    if !safe_relative(file) {
        (false, false)
    } else if is_planned_new(new_paths, normalized(file)->0) {
        if new_path_safe {
            (true, true)
        } else {
            (false, false)
        }
    } else if overlaps_any(file, evidence_files) {
        (true, false)
    } else if overlaps_any(file, plan_paths) || overlaps_any(file, evidence_areas) {
        (inside_working_dir, false)
    } else {
        (false, false)
    }
}

pub open spec fn string_seq(v: Seq<String>) -> Seq<Seq<char>> {
    v.map_values(|s: String| s@)
}

fn planned_new(nf: &String, new_paths: &Vec<String>) -> (b: bool)
    ensures
        b == is_planned_new(string_seq(new_paths@), nf@),
{
    let ghost nv = string_seq(new_paths@);
    let mut k: usize = 0;
    while k < new_paths.len()
        invariant
            0 <= k <= new_paths.len(),
            nv == string_seq(new_paths@),
            forall|j: int| 0 <= j < k ==> normalized(#[trigger] nv[j]) != Some(nf@),
        decreases new_paths.len() - k,
    {
        match normalize_path(new_paths[k].as_str()) {
            Some(n) => {
                if n == *nf {
                    proof {
                        assert(nv[k as int] == new_paths@[k as int]@);
                    }
                    return true;
                }
            },
            None => {},
        }
        proof {
            assert(nv[k as int] == new_paths@[k as int]@);
        }
        k = k + 1;
    }
    false
}

/// Whether a task's affected file is backed by evidence, and whether it is
/// one of the planned new files. What the file system says of the file is
/// passed in: `new_path_safe` (creating it stays inside the working
/// directory) and `inside_working_dir` (it exists and resolves inside it).
pub fn path_has_evidence_backing(
    file: &str,
    evidence_files: &Vec<String>,
    plan_paths: &Vec<String>,
    new_paths: &Vec<String>,
    evidence_areas: &Vec<String>,
    new_path_safe: bool,
    inside_working_dir: bool,
) -> (r: (bool, bool))
    ensures
        r == evidence_backing(
            file@,
            string_seq(evidence_files@),
            string_seq(plan_paths@),
            string_seq(new_paths@),
            string_seq(evidence_areas@),
            new_path_safe,
            inside_working_dir,
        ),
{
    if !is_safe_relative_path(file) {
        return (false, false);
    }
    let is_new = match normalize_path(file) {
        Some(nf) => planned_new(&nf, new_paths),
        None => false,
    };
    if is_new {
        if !new_path_safe {
            return (false, false);
        }
        return (true, true);
    }
    let in_evidence = path_matches_any_area(file, evidence_files);
    proof {
        assert(in_evidence == overlaps_any(file@, string_seq(evidence_files@))) by {
            if in_evidence {
                let i = choose|i: int| 0 <= i < evidence_files.len() && overlap(file@, #[trigger] evidence_files@[i]@);
                assert(string_seq(evidence_files@)[i] == evidence_files@[i]@);
            }
            if overlaps_any(file@, string_seq(evidence_files@)) {
                let k = choose|k: int| 0 <= k < evidence_files.len() && overlap(file@, #[trigger] string_seq(evidence_files@)[k]);
                assert(string_seq(evidence_files@)[k] == evidence_files@[k]@);
            }
        }
    }
    if in_evidence {
        return (true, false);
    }
    let in_plan = path_matches_any_area(file, plan_paths);
    let in_area = path_matches_any_area(file, evidence_areas);
    proof {
        assert(in_plan == overlaps_any(file@, string_seq(plan_paths@))) by {
            if in_plan {
                let i = choose|i: int| 0 <= i < plan_paths.len() && overlap(file@, #[trigger] plan_paths@[i]@);
                assert(string_seq(plan_paths@)[i] == plan_paths@[i]@);
            }
            if overlaps_any(file@, string_seq(plan_paths@)) {
                let k = choose|k: int| 0 <= k < plan_paths.len() && overlap(file@, #[trigger] string_seq(plan_paths@)[k]);
                assert(string_seq(plan_paths@)[k] == plan_paths@[k]@);
            }
        }
        assert(in_area == overlaps_any(file@, string_seq(evidence_areas@))) by {
            if in_area {
                let i = choose|i: int| 0 <= i < evidence_areas.len() && overlap(file@, #[trigger] evidence_areas@[i]@);
                assert(string_seq(evidence_areas@)[i] == evidence_areas@[i]@);
            }
            if overlaps_any(file@, string_seq(evidence_areas@)) {
                let k = choose|k: int| 0 <= k < evidence_areas.len() && overlap(file@, #[trigger] string_seq(evidence_areas@)[k]);
                assert(string_seq(evidence_areas@)[k] == evidence_areas@[k]@);
            }
        }
    }
    if in_plan || in_area {
        return (inside_working_dir, false);
    }
    (false, false)
}

/// Tasks of a prefix of the phases come first among all tasks.
pub proof fn lemma_all_tasks_grow(ps: Seq<TaskPhase>, k: int)
    requires
        0 <= k <= ps.len(),
    ensures
        all_tasks(ps.subrange(0, k)).len() <= all_tasks(ps).len(),
        forall|t: int| 0 <= t < all_tasks(ps.subrange(0, k)).len() ==> #[trigger] all_tasks(ps)[t] == all_tasks(
            ps.subrange(0, k),
        )[t],
    decreases ps.len() - k,
{
    if k < ps.len() {
        lemma_all_tasks_grow(ps, k + 1);
        lemma_all_tasks_step(ps, k);
        let a = all_tasks(ps.subrange(0, k));
        let b = all_tasks(ps.subrange(0, k + 1));
        assert forall|t: int| 0 <= t < a.len() implies #[trigger] all_tasks(ps)[t] == a[t] by {
            assert(b[t] == a[t]);
        }
    } else {
        assert(ps.subrange(0, k) =~= ps);
    }
}

} // verus!
