//! Quality checks on a task breakdown: task counts, story coverage,
//! affected files, duplicate ids, vague descriptions, dependencies and
//! cycles. Each finding carries a score in tenths.

use vstd::prelude::*;
use crate::artifacts::{last_deps, PlannedTask};
use crate::graph::{detect_cycle, names, DependencyMap};
use crate::names::{clone_strings, vec_contains};
use crate::paths::join;
use crate::planning::TaskDecompositionConfig;
use crate::text::{chars_of, decimal, push_decimal, push_str};
use crate::validation::{assigned_to, story_has_tasks, task_exists};

verus! {

broadcast use vstd::string::group_string_axioms;

/// A problem found in a task breakdown.
#[derive(Debug)]
pub enum TaskQualityIssue {
    TooFewTasks { story_id: String, count: usize, min: usize },
    TooManyTasks { story_id: String, count: usize, max: usize },
    MissingStoryCoverage { story_id: String },
    EmptyAffectedFiles { task_id: String },
    InvalidDirectoryPath { task_id: String, path: String },
    DuplicateTaskId { task_id: String },
    VagueDescription { task_id: String, description: String },
    MissingDependency { task_id: String, missing: String },
    CircularDependency { task_ids: Vec<String> },
}

/// An issue as a value.
pub enum IssueV {
    TooFew(Seq<char>, nat, nat),
    TooMany(Seq<char>, nat, nat),
    MissingStory(Seq<char>),
    EmptyFiles(Seq<char>),
    DirectoryPath(Seq<char>, Seq<char>),
    DuplicateId(Seq<char>),
    Vague(Seq<char>, Seq<char>),
    MissingDep(Seq<char>, Seq<char>),
    Cycle(Seq<Seq<char>>),
}

impl View for TaskQualityIssue {
    type V = IssueV;

    open spec fn view(&self) -> IssueV {
        match self {
            TaskQualityIssue::TooFewTasks { story_id, count, min } => IssueV::TooFew(story_id@, *count as nat, *min as nat),
            TaskQualityIssue::TooManyTasks { story_id, count, max } => IssueV::TooMany(story_id@, *count as nat, *max as nat),
            TaskQualityIssue::MissingStoryCoverage { story_id } => IssueV::MissingStory(story_id@),
            TaskQualityIssue::EmptyAffectedFiles { task_id } => IssueV::EmptyFiles(task_id@),
            TaskQualityIssue::InvalidDirectoryPath { task_id, path } => IssueV::DirectoryPath(task_id@, path@),
            TaskQualityIssue::DuplicateTaskId { task_id } => IssueV::DuplicateId(task_id@),
            TaskQualityIssue::VagueDescription { task_id, description } => IssueV::Vague(task_id@, description@),
            TaskQualityIssue::MissingDependency { task_id, missing } => IssueV::MissingDep(task_id@, missing@),
            TaskQualityIssue::CircularDependency { task_ids } => IssueV::Cycle(names(task_ids@)),
        }
    }
}

pub open spec fn issue_fix(i: IssueV) -> Seq<char> {
    match i {
        IssueV::TooFew(..) => "Add more granular tasks to cover the story scope"@,
        IssueV::TooMany(..) => "Consolidate related tasks or split into separate stories"@,
        IssueV::MissingStory(..) => "Add user_story field to at least one task"@,
        IssueV::EmptyFiles(..) => "Specify expected files to modify or create"@,
        IssueV::DirectoryPath(..) => "Replace directory with specific file paths"@,
        IssueV::DuplicateId(..) => "Rename to use unique task IDs"@,
        IssueV::Vague(..) => "Add specific acceptance criteria"@,
        IssueV::MissingDep(..) => "Either add the missing task or remove the dependency"@,
        IssueV::Cycle(..) => "Remove one dependency to break the cycle"@,
    }
}

/// What `{:?}` prints for a string: the string quoted, with its special
/// characters escaped; a function of the string alone.
pub uninterp spec fn debug_quoted(s: Seq<char>) -> Seq<char>;

/// `<str as Debug>::fmt`, through `format!("{:?}", ..)`. The contract names
/// its result and says nothing more of the escaping rules.
#[verifier::external_body]
fn debug_str(s: &str) -> (r: String)
    ensures
        r@ == debug_quoted(s@),
{
    format!("{:?}", s)
}

/// A list of strings as `{:?}` prints it.
pub open spec fn debug_list(items: Seq<Seq<char>>) -> Seq<char> {
    "["@ + join(items.map_values(|s: Seq<char>| debug_quoted(s)), ", "@) + "]"@
}

/// The message of an issue.
pub open spec fn issue_text(i: IssueV) -> Seq<char> {
    match i {
        IssueV::TooFew(s, c, m) => "Story '"@ + s + "' has "@ + decimal(c) + " tasks (minimum: "@ + decimal(m) + ")"@,
        IssueV::TooMany(s, c, m) => "Story '"@ + s + "' has "@ + decimal(c) + " tasks (maximum: "@ + decimal(m) + ")"@,
        IssueV::MissingStory(s) => "User story '"@ + s + "' has no tasks linked (set user_story field)"@,
        IssueV::EmptyFiles(t) => "Task '"@ + t + "' has empty affected_files"@,
        IssueV::DirectoryPath(t, p) => "Task '"@ + t + "' has directory '"@ + p
            + "' in affected_files (should be files only)"@,
        IssueV::DuplicateId(t) => "Duplicate task ID: '"@ + t + "'"@,
        IssueV::Vague(t, d) => "Task '"@ + t + "' has vague description: '"@ + d + "'"@,
        IssueV::MissingDep(t, m) => "Task '"@ + t + "' depends on non-existent task '"@ + m + "'"@,
        IssueV::Cycle(ids) => "Circular dependency detected: "@ + debug_list(ids),
    }
}

impl TaskQualityIssue {
    /// How to fix the issue.
    pub fn suggested_fix(&self) -> (s: &'static str)
        ensures
            s@ == issue_fix(self@),
    {
        match self {
            TaskQualityIssue::TooFewTasks { .. } => "Add more granular tasks to cover the story scope",
            TaskQualityIssue::TooManyTasks { .. } => "Consolidate related tasks or split into separate stories",
            TaskQualityIssue::MissingStoryCoverage { .. } => "Add user_story field to at least one task",
            TaskQualityIssue::EmptyAffectedFiles { .. } => "Specify expected files to modify or create",
            TaskQualityIssue::InvalidDirectoryPath { .. } => "Replace directory with specific file paths",
            TaskQualityIssue::DuplicateTaskId { .. } => "Rename to use unique task IDs",
            TaskQualityIssue::VagueDescription { .. } => "Add specific acceptance criteria",
            TaskQualityIssue::MissingDependency { .. } => "Either add the missing task or remove the dependency",
            TaskQualityIssue::CircularDependency { .. } => "Remove one dependency to break the cycle",
        }
    }

    pub(crate) fn push_debug_list(out: &mut String, items: &Vec<String>)
        ensures
            final(out)@ == old(out)@ + debug_list(names(items@)),
    {
        let ghost qs = names(items@).map_values(|s: Seq<char>| debug_quoted(s));
        push_str(out, "[");
        let ghost start = out@;
        let mut i: usize = 0;
        proof {
            assert(qs.subrange(0, 0) =~= Seq::<Seq<char>>::empty());
            assert(out@ =~= start + join(qs.subrange(0, 0), ", "@));
        }
        while i < items.len()
            invariant
                0 <= i <= items.len(),
                qs == names(items@).map_values(|s: Seq<char>| debug_quoted(s)),
                out@ == start + join(qs.subrange(0, i as int), ", "@),
            decreases items.len() - i,
        {
            if i > 0 {
                push_str(out, ", ");
            }
            let q = debug_str(items[i].as_str());
            push_str(out, q.as_str());
            proof {
                let p = qs.subrange(0, i + 1);
                assert(p.drop_last() =~= qs.subrange(0, i as int));
                assert(p.last() == debug_quoted(items@[i as int]@));
                assert(out@ =~= start + join(p, ", "@));
            }
            i = i + 1;
        }
        proof {
            assert(qs.subrange(0, items.len() as int) =~= qs);
        }
        push_str(out, "]");
    }

    /// The message of the issue.
    pub fn to_text(&self) -> (s: String)
        ensures
            s@ == issue_text(self@),
    {
        let mut s = String::new();
        match self {
            TaskQualityIssue::TooFewTasks { story_id, count, min } => {
                push_str(&mut s, "Story '");
                push_str(&mut s, story_id.as_str());
                push_str(&mut s, "' has ");
                push_decimal(&mut s, *count as u64);
                push_str(&mut s, " tasks (minimum: ");
                push_decimal(&mut s, *min as u64);
                push_str(&mut s, ")");
            },
            TaskQualityIssue::TooManyTasks { story_id, count, max } => {
                push_str(&mut s, "Story '");
                push_str(&mut s, story_id.as_str());
                push_str(&mut s, "' has ");
                push_decimal(&mut s, *count as u64);
                push_str(&mut s, " tasks (maximum: ");
                push_decimal(&mut s, *max as u64);
                push_str(&mut s, ")");
            },
            TaskQualityIssue::MissingStoryCoverage { story_id } => {
                push_str(&mut s, "User story '");
                push_str(&mut s, story_id.as_str());
                push_str(&mut s, "' has no tasks linked (set user_story field)");
            },
            TaskQualityIssue::EmptyAffectedFiles { task_id } => {
                push_str(&mut s, "Task '");
                push_str(&mut s, task_id.as_str());
                push_str(&mut s, "' has empty affected_files");
            },
            TaskQualityIssue::InvalidDirectoryPath { task_id, path } => {
                push_str(&mut s, "Task '");
                push_str(&mut s, task_id.as_str());
                push_str(&mut s, "' has directory '");
                push_str(&mut s, path.as_str());
                push_str(&mut s, "' in affected_files (should be files only)");
            },
            TaskQualityIssue::DuplicateTaskId { task_id } => {
                push_str(&mut s, "Duplicate task ID: '");
                push_str(&mut s, task_id.as_str());
                push_str(&mut s, "'");
            },
            TaskQualityIssue::VagueDescription { task_id, description } => {
                push_str(&mut s, "Task '");
                push_str(&mut s, task_id.as_str());
                push_str(&mut s, "' has vague description: '");
                push_str(&mut s, description.as_str());
                push_str(&mut s, "'");
            },
            TaskQualityIssue::MissingDependency { task_id, missing } => {
                push_str(&mut s, "Task '");
                push_str(&mut s, task_id.as_str());
                push_str(&mut s, "' depends on non-existent task '");
                push_str(&mut s, missing.as_str());
                push_str(&mut s, "'");
            },
            TaskQualityIssue::CircularDependency { task_ids } => {
                push_str(&mut s, "Circular dependency detected: ");
                Self::push_debug_list(&mut s, task_ids);
            },
        }
        s
    }
}

/// Checks task breakdowns against the decomposition settings.
pub struct TaskQualityValidator {
    config: TaskDecompositionConfig,
    working_dir: Option<String>,
}

/// What a validation found: the issues in the order the checks ran, and one
/// score per finding, in tenths (ten for a finding without issue).
#[derive(Debug)]
pub struct TaskQualityFindings {
    pub issues: Vec<TaskQualityIssue>,
    pub scores: Vec<u8>,
}

/// Issues and scores of a check.
pub type Checked = (Seq<IssueV>, Seq<u8>);

pub open spec fn both(a: Checked, b: Checked) -> Checked {
    (a.0 + b.0, a.1 + b.1)
}

pub open spec fn issue_views(is: Seq<TaskQualityIssue>) -> Seq<IssueV> {
    is.map_values(|i: TaskQualityIssue| i@)
}

pub open spec fn overall() -> Seq<char> {
    "overall"@
}

/// Task count against the per-story bounds, over at least one story.
pub open spec fn count_check(n: nat, stories: nat, min: nat, max: nat) -> Checked {
    let sc: nat = if stories == 0 { 1 } else { stories };
    if n < min * sc {
        (seq![IssueV::TooFew(overall(), n, min * sc)], seq![5u8])
    } else if n > max * sc {
        (seq![IssueV::TooMany(overall(), n, max * sc)], seq![7u8])
    } else {
        (Seq::empty(), seq![10u8])
    }
}

/// One finding per user story: covered by some task, or not.
pub open spec fn coverage_check(ts: Seq<PlannedTask>, ids: Seq<Seq<char>>) -> Checked
    decreases ids.len(),
{
    if ids.len() == 0 {
        (Seq::empty(), Seq::empty())
    } else {
        let rest = coverage_check(ts, ids.drop_last());
        if story_has_tasks(ts, ids.last()) {
            (rest.0, rest.1.push(10u8))
        } else {
            (rest.0.push(IssueV::MissingStory(ids.last())), rest.1.push(0u8))
        }
    }
}

/// The path names a directory: it ends with `/`, or, when a working
/// directory is set, it is one of the known directories.
pub open spec fn is_directory_path(f: Seq<char>, dirs: Seq<Seq<char>>, has_dir: bool) -> bool {
    (f.len() > 0 && f.last() == '/') || (has_dir && dirs.contains(f))
}

pub open spec fn directory_issues(id: Seq<char>, files: Seq<Seq<char>>, dirs: Seq<Seq<char>>, has_dir: bool) -> Seq<IssueV>
    decreases files.len(),
{
    if files.len() == 0 {
        Seq::empty()
    } else {
        let rest = directory_issues(id, files.drop_last(), dirs, has_dir);
        if is_directory_path(files.last(), dirs, has_dir) {
            rest.push(IssueV::DirectoryPath(id, files.last()))
        } else {
            rest
        }
    }
}

pub open spec fn task_file_check(t: PlannedTask, dirs: Seq<Seq<char>>, has_dir: bool) -> Checked {
    if t.affected_files@.len() == 0 {
        (seq![IssueV::EmptyFiles(t.id@)], seq![3u8])
    } else {
        let is = directory_issues(t.id@, names(t.affected_files@), dirs, has_dir);
        (is, seq![if is.len() == 0 { 10u8 } else { 3u8 }])
    }
}

/// Affected files: each task names some, and only files.
pub open spec fn file_check(ts: Seq<PlannedTask>, dirs: Seq<Seq<char>>, has_dir: bool) -> Checked
    decreases ts.len(),
{
    if ts.len() == 0 {
        (Seq::empty(), Seq::empty())
    } else {
        both(file_check(ts.drop_last(), dirs, has_dir), task_file_check(ts.last(), dirs, has_dir))
    }
}

/// One issue for each task whose id an earlier task already has.
pub open spec fn duplicate_check(ts: Seq<PlannedTask>) -> Checked
    decreases ts.len(),
{
    if ts.len() == 0 {
        (Seq::empty(), Seq::empty())
    } else {
        let rest = duplicate_check(ts.drop_last());
        if task_exists(ts.drop_last(), ts.last().id@) {
            (rest.0.push(IssueV::DuplicateId(ts.last().id@)), rest.1.push(0u8))
        } else {
            rest
        }
    }
}

/// Unicode white space (`char::is_whitespace`).
pub open spec fn is_space(c: char) -> bool {
    let v = c as u32;
    (0x9 <= v && v <= 0xD) || v == 0x20 || v == 0x85 || v == 0xA0 || v == 0x1680 || (0x2000 <= v && v <= 0x200A)
        || v == 0x2028 || v == 0x2029 || v == 0x202F || v == 0x205F || v == 0x3000
}

/// `s` without leading white space.
pub open spec fn trim_front(s: Seq<char>) -> Seq<char>
    decreases s.len(),
{
    if s.len() > 0 && is_space(s[0]) {
        trim_front(s.drop_first())
    } else {
        s
    }
}

/// `s` without trailing white space.
pub open spec fn trim_back(s: Seq<char>) -> Seq<char>
    decreases s.len(),
{
    if s.len() > 0 && is_space(s.last()) {
        trim_back(s.drop_last())
    } else {
        s
    }
}

/// `s` without leading or trailing white space (`str::trim`).
pub open spec fn trimmed(s: Seq<char>) -> Seq<char> {
    trim_back(trim_front(s))
}

/// One finding per task: its description, trimmed, has at least three characters or not.
pub open spec fn description_check(ts: Seq<PlannedTask>) -> Checked
    decreases ts.len(),
{
    if ts.len() == 0 {
        (Seq::empty(), Seq::empty())
    } else {
        let rest = description_check(ts.drop_last());
        let t = ts.last();
        if trimmed(t.description@).len() < 3 {
            (rest.0.push(IssueV::Vague(t.id@, t.description@)), rest.1.push(4u8))
        } else {
            (rest.0, rest.1.push(10u8))
        }
    }
}

pub open spec fn task_dep_check(all: Seq<PlannedTask>, id: Seq<char>, deps: Seq<Seq<char>>) -> Checked
    decreases deps.len(),
{
    if deps.len() == 0 {
        (Seq::empty(), Seq::empty())
    } else {
        let rest = task_dep_check(all, id, deps.drop_last());
        if task_exists(all, deps.last()) {
            rest
        } else {
            (rest.0.push(IssueV::MissingDep(id, deps.last())), rest.1.push(2u8))
        }
    }
}

/// One issue for each dependency that names no task.
pub open spec fn dependency_check(all: Seq<PlannedTask>, ts: Seq<PlannedTask>) -> Checked
    decreases ts.len(),
{
    if ts.len() == 0 {
        (Seq::empty(), Seq::empty())
    } else {
        both(dependency_check(all, ts.drop_last()), task_dep_check(all, ts.last().id@, names(ts.last().dependencies@)))
    }
}

/// Task `a` (its last definition) depends directly on `b`.
pub open spec fn seq_depends(ts: Seq<PlannedTask>, a: Seq<char>, b: Seq<char>) -> bool {
    last_deps(ts, a) matches Some(d) && d.contains(b)
}

/// Some chain of dependencies among the tasks leads back to where it started.
pub open spec fn tasks_have_cycle(ts: Seq<PlannedTask>) -> bool {
    exists|w: Seq<Seq<char>>|
        w.len() >= 2 && w[0] == w.last() && forall|i: int| 0 <= i < w.len() - 1 ==> #[trigger] seq_depends(ts, w[i], w[i + 1])
}

/// A dependency path among the tasks whose last task occurs earlier on it.
pub open spec fn is_task_cycle(ts: Seq<PlannedTask>, p: Seq<Seq<char>>) -> bool {
    &&& p.len() >= 2
    &&& exists|j: int| 0 <= j < p.len() - 1 && p[j] == p.last()
    &&& forall|i: int| 0 <= i < p.len() - 1 ==> #[trigger] seq_depends(ts, p[i], p[i + 1])
}

/// All checks but the cycle check, in order.
pub open spec fn acyclic_checks(
    ts: Seq<PlannedTask>,
    ids: Seq<Seq<char>>,
    cfg: TaskDecompositionConfig,
    dirs: Seq<Seq<char>>,
    has_dir: bool,
) -> Checked {
    both(
        both(
            both(
                both(
                    both(
                        count_check(ts.len(), ids.len(), cfg.min_tasks_per_story as nat, cfg.max_tasks_per_story as nat),
                        coverage_check(ts, ids),
                    ),
                    if cfg.require_affected_files { file_check(ts, dirs, has_dir) } else { (Seq::empty(), Seq::empty()) },
                ),
                duplicate_check(ts),
            ),
            description_check(ts),
        ),
        dependency_check(ts, ts),
    )
}

pub open spec fn findings_view(f: TaskQualityFindings) -> Checked {
    (issue_views(f.issues@), f.scores@)
}

proof fn lemma_product_fits(a: usize, b: usize)
    ensures
        a * b <= u128::MAX,
{
    assert(a * b <= u128::MAX) by (nonlinear_arith)
        requires
            a <= 0xffff_ffff_ffff_ffff,
            b <= 0xffff_ffff_ffff_ffff,
    ;
}

impl TaskQualityValidator {
    pub closed spec fn settings(&self) -> TaskDecompositionConfig {
        self.config
    }

    pub closed spec fn dir(&self) -> Option<Seq<char>> {
        match self.working_dir {
            Some(d) => Some(d@),
            None => None,
        }
    }

    /// A validator with the given settings and no working directory.
    pub fn new(config: &TaskDecompositionConfig) -> (v: Self)
        ensures
            v.settings() == *config,
            v.dir() is None,
    {
        TaskQualityValidator { config: *config, working_dir: None }
    }

    /// The same validator, checking affected files against `working_dir`.
    pub fn with_working_dir(self, working_dir: &str) -> (v: Self)
        ensures
            v.settings() == self.settings(),
            v.dir() == Some(working_dir@),
    {
        TaskQualityValidator { config: self.config, working_dir: Some(working_dir.to_string()) }
    }

    fn push(out: &mut TaskQualityFindings, issue: TaskQualityIssue, score: u8)
        ensures
            findings_view(*final(out)) == both(findings_view(*old(out)), (seq![issue@], seq![score])),
    {
        out.issues.push(issue);
        out.scores.push(score);
        proof {
            assert(issue_views(out.issues@) =~= issue_views(old(out).issues@) + seq![issue@]);
            assert(out.scores@ =~= old(out).scores@ + seq![score]);
        }
    }

    fn score(out: &mut TaskQualityFindings, score: u8)
        ensures
            findings_view(*final(out)) == both(findings_view(*old(out)), (Seq::empty(), seq![score])),
    {
        out.scores.push(score);
        proof {
            assert(issue_views(out.issues@) =~= issue_views(old(out).issues@) + Seq::<IssueV>::empty());
            assert(out.scores@ =~= old(out).scores@ + seq![score]);
        }
    }

    fn check_task_count(&self, tasks: &[PlannedTask], story_count: usize, out: &mut TaskQualityFindings)
        requires
            tasks@.len() < self.settings().min_tasks_per_story * (if story_count == 0 { 1 } else { story_count as int })
                ==> self.settings().min_tasks_per_story * (if story_count == 0 { 1 } else { story_count as int })
                <= usize::MAX,
        ensures
            findings_view(*final(out)) == both(
                findings_view(*old(out)),
                count_check(
                    tasks@.len(),
                    story_count as nat,
                    self.settings().min_tasks_per_story as nat,
                    self.settings().max_tasks_per_story as nat,
                ),
            ),
    {
        let sc: usize = if story_count == 0 {
            1
        } else {
            story_count
        };
        let n = tasks.len();
        proof {
            lemma_product_fits(self.config.min_tasks_per_story, sc);
            lemma_product_fits(self.config.max_tasks_per_story, sc);
        }
        let lo: u128 = self.config.min_tasks_per_story as u128 * sc as u128;
        let hi: u128 = self.config.max_tasks_per_story as u128 * sc as u128;
        if (n as u128) < lo {
            let min = self.config.min_tasks_per_story * sc;
            Self::push(out, TaskQualityIssue::TooFewTasks { story_id: "overall".to_string(), count: n, min }, 5);
        } else if (n as u128) > hi {
            let max = self.config.max_tasks_per_story * sc;
            Self::push(out, TaskQualityIssue::TooManyTasks { story_id: "overall".to_string(), count: n, max }, 7);
        } else {
            Self::score(out, 10);
        }
    }

    fn story_covered(tasks: &[PlannedTask], id: &String) -> (b: bool)
        ensures
            b == story_has_tasks(tasks@, id@),
    {
        let mut k: usize = 0;
        while k < tasks.len()
            invariant
                0 <= k <= tasks.len(),
                forall|j: int| 0 <= j < k ==> !assigned_to(#[trigger] tasks@[j], id@),
            decreases tasks.len() - k,
        {
            match &tasks[k].user_story {
                Some(u) => {
                    if *u == *id {
                        return true;
                    }
                },
                None => {},
            }
            k = k + 1;
        }
        false
    }

    fn check_story_coverage(&self, tasks: &[PlannedTask], story_ids: &[String], out: &mut TaskQualityFindings)
        ensures
            findings_view(*final(out)) == both(findings_view(*old(out)), coverage_check(tasks@, names(story_ids@))),
    {
        let ghost ids = names(story_ids@);
        let ghost base = findings_view(*out);
        let mut i: usize = 0;
        proof {
            assert(ids.subrange(0, 0) =~= Seq::<Seq<char>>::empty());
            assert(both(base, coverage_check(tasks@, ids.subrange(0, 0))) =~= base);
        }
        while i < story_ids.len()
            invariant
                0 <= i <= story_ids.len(),
                ids == names(story_ids@),
                findings_view(*out) == both(base, coverage_check(tasks@, ids.subrange(0, i as int))),
            decreases story_ids.len() - i,
        {
            proof {
                let q = ids.subrange(0, i + 1);
                assert(q.drop_last() =~= ids.subrange(0, i as int));
                assert(q.last() == story_ids@[i as int]@);
            }
            let ghost before = findings_view(*out);
            if Self::story_covered(tasks, &story_ids[i]) {
                Self::score(out, 10);
            } else {
                Self::push(out, TaskQualityIssue::MissingStoryCoverage { story_id: story_ids[i].clone() }, 0);
            }
            proof {
                assert(findings_view(*out) =~= both(base, coverage_check(tasks@, ids.subrange(0, i + 1))));
            }
            i = i + 1;
        }
        proof {
            assert(ids.subrange(0, story_ids.len() as int) =~= ids);
        }
    }
}

pub(crate) fn ends_with_slash(s: &str) -> (b: bool)
    ensures
        b == (s@.len() > 0 && s@.last() == '/'),
{
    let n = s.unicode_len();
    n > 0 && s.get_char(n - 1) == '/'
}

fn is_space_char(c: char) -> (b: bool)
    ensures
        b == is_space(c),
{
    let v = c as u32;
    (0x9 <= v && v <= 0xD) || v == 0x20 || v == 0x85 || v == 0xA0 || v == 0x1680 || (0x2000 <= v && v <= 0x200A)
        || v == 0x2028 || v == 0x2029 || v == 0x202F || v == 0x205F || v == 0x3000
}

proof fn lemma_trim_front(s: Seq<char>, i: int)
    requires
        0 <= i <= s.len(),
        forall|k: int| 0 <= k < i ==> is_space(#[trigger] s[k]),
    ensures
        trim_front(s) == trim_front(s.skip(i)),
    decreases i,
{
    if i > 0 {
        assert(s.drop_first().skip(i - 1) =~= s.skip(i));
        lemma_trim_front(s.drop_first(), i - 1);
    } else {
        assert(s.skip(0) =~= s);
    }
}

proof fn lemma_trim_back(s: Seq<char>, j: int)
    requires
        0 <= j <= s.len(),
        forall|k: int| j <= k < s.len() ==> is_space(#[trigger] s[k]),
    ensures
        trim_back(s) == trim_back(s.take(j)),
    decreases s.len() - j,
{
    if j < s.len() {
        assert(s.drop_last().take(j) =~= s.take(j));
        lemma_trim_back(s.drop_last(), j);
    } else {
        assert(s.take(j) =~= s);
    }
}

/// Number of characters of `s` once trimmed.
fn trimmed_len(s: &str) -> (n: usize)
    ensures
        n == trimmed(s@).len(),
{
    let cs = chars_of(s);
    let mut lo: usize = 0;
    while lo < cs.len() && is_space_char(cs[lo])
        invariant
            0 <= lo <= cs.len(),
            forall|k: int| 0 <= k < lo ==> is_space(#[trigger] cs@[k]),
        decreases cs.len() - lo,
    {
        lo = lo + 1;
    }
    proof {
        lemma_trim_front(cs@, lo as int);
    }
    let mut hi: usize = cs.len();
    while hi > lo && is_space_char(cs[hi - 1])
        invariant
            lo <= hi <= cs.len(),
            forall|k: int| hi <= k < cs.len() ==> is_space(#[trigger] cs@[k]),
        decreases hi,
    {
        hi = hi - 1;
    }
    proof {
        let f = cs@.skip(lo as int);
        if lo < cs.len() {
            assert(f[0] == cs@[lo as int]);
            assert(!is_space(f[0]));
            assert(trim_front(f) == f);
        } else {
            assert(f.len() == 0);
        }
        assert forall|k: int| hi - lo <= k < f.len() implies is_space(#[trigger] f[k]) by {
            assert(f[k] == cs@[lo + k]);
        }
        lemma_trim_back(f, hi - lo);
        let g = f.take(hi - lo);
        if hi > lo {
            assert(g.last() == cs@[hi - 1]);
        }
        assert(trim_back(g) == g);
        assert(cs@ == s@);
    }
    hi - lo
}

impl TaskQualityValidator {
    fn task_files(&self, task: &PlannedTask, directories: &Vec<String>, out: &mut TaskQualityFindings)
        ensures
            findings_view(*final(out)) == both(
                findings_view(*old(out)),
                task_file_check(*task, names(directories@), self.dir() is Some),
            ),
    {
        let has_dir = self.working_dir.is_some();
        if task.affected_files.len() == 0 {
            Self::push(out, TaskQualityIssue::EmptyAffectedFiles { task_id: task.id.clone() }, 3);
            return;
        }
        let ghost fs = names(task.affected_files@);
        let ghost dirs = names(directories@);
        let ghost base = findings_view(*out);
        let mut passed = true;
        let mut i: usize = 0;
        proof {
            assert(fs.subrange(0, 0) =~= Seq::<Seq<char>>::empty());
            assert(base.0 + directory_issues(task.id@, fs.subrange(0, 0), dirs, has_dir) =~= base.0);
        }
        while i < task.affected_files.len()
            invariant
                0 <= i <= task.affected_files.len(),
                fs == names(task.affected_files@),
                dirs == names(directories@),
                has_dir == (self.dir() is Some),
                issue_views(out.issues@) == base.0 + directory_issues(task.id@, fs.subrange(0, i as int), dirs, has_dir),
                out.scores@ == base.1,
                passed == (directory_issues(task.id@, fs.subrange(0, i as int), dirs, has_dir).len() == 0),
            decreases task.affected_files.len() - i,
        {
            let file = &task.affected_files[i];
            proof {
                let q = fs.subrange(0, i + 1);
                assert(q.drop_last() =~= fs.subrange(0, i as int));
                assert(q.last() == file@);
            }
            let is_dir = ends_with_slash(file.as_str()) || (has_dir && vec_contains(directories, file.as_str()));
            if is_dir {
                let ghost before = issue_views(out.issues@);
                out.issues.push(TaskQualityIssue::InvalidDirectoryPath { task_id: task.id.clone(), path: file.clone() });
                passed = false;
                proof {
                    assert(issue_views(out.issues@) =~= before.push(IssueV::DirectoryPath(task.id@, file@)));
                }
            }
            i = i + 1;
        }
        proof {
            assert(fs.subrange(0, task.affected_files.len() as int) =~= fs);
        }
        let ghost mid = out.scores@;
        out.scores.push(if passed { 10 } else { 3 });
        proof {
            assert(out.scores@ =~= base.1 + seq![if passed { 10u8 } else { 3u8 }]);
        }
    }

    fn check_affected_files(&self, tasks: &[PlannedTask], directories: &Vec<String>, out: &mut TaskQualityFindings)
        ensures
            findings_view(*final(out)) == both(
                findings_view(*old(out)),
                if self.settings().require_affected_files {
                    file_check(tasks@, names(directories@), self.dir() is Some)
                } else {
                    (Seq::empty(), Seq::empty())
                },
            ),
    {
        let ghost base = findings_view(*out);
        if !self.config.require_affected_files {
            proof {
                assert(both(base, (Seq::<IssueV>::empty(), Seq::<u8>::empty())) =~= base);
            }
            return;
        }
        let ghost ts = tasks@;
        let mut i: usize = 0;
        proof {
            assert(ts.subrange(0, 0) =~= Seq::<PlannedTask>::empty());
            assert(both(base, file_check(ts.subrange(0, 0), names(directories@), self.dir() is Some)) =~= base);
        }
        while i < tasks.len()
            invariant
                0 <= i <= tasks.len(),
                ts == tasks@,
                findings_view(*out) == both(base, file_check(ts.subrange(0, i as int), names(directories@), self.dir() is Some)),
            decreases tasks.len() - i,
        {
            proof {
                let q = ts.subrange(0, i + 1);
                assert(q.drop_last() =~= ts.subrange(0, i as int));
                assert(q.last() == ts[i as int]);
            }
            self.task_files(&tasks[i], directories, out);
            proof {
                assert(findings_view(*out) =~= both(base, file_check(ts.subrange(0, i + 1), names(directories@), self.dir() is Some)));
            }
            i = i + 1;
        }
        proof {
            assert(ts.subrange(0, tasks.len() as int) =~= ts);
        }
    }

    fn id_seen(tasks: &[PlannedTask], upto: usize, id: &String) -> (b: bool)
        requires
            upto <= tasks@.len(),
        ensures
            b == task_exists(tasks@.subrange(0, upto as int), id@),
    {
        let ghost pre = tasks@.subrange(0, upto as int);
        let mut k: usize = 0;
        while k < upto
            invariant
                0 <= k <= upto <= tasks@.len(),
                pre == tasks@.subrange(0, upto as int),
                forall|j: int| 0 <= j < k ==> (#[trigger] pre[j]).id@ != id@,
            decreases upto - k,
        {
            if tasks[k].id == *id {
                proof {
                    assert(pre[k as int] == tasks@[k as int]);
                }
                return true;
            }
            proof {
                assert(pre[k as int] == tasks@[k as int]);
            }
            k = k + 1;
        }
        false
    }

    fn check_duplicate_ids(&self, tasks: &[PlannedTask], out: &mut TaskQualityFindings)
        ensures
            findings_view(*final(out)) == both(findings_view(*old(out)), duplicate_check(tasks@)),
    {
        let ghost ts = tasks@;
        let ghost base = findings_view(*out);
        let mut i: usize = 0;
        proof {
            assert(ts.subrange(0, 0) =~= Seq::<PlannedTask>::empty());
            assert(both(base, duplicate_check(ts.subrange(0, 0))) =~= base);
        }
        while i < tasks.len()
            invariant
                0 <= i <= tasks.len(),
                ts == tasks@,
                findings_view(*out) == both(base, duplicate_check(ts.subrange(0, i as int))),
            decreases tasks.len() - i,
        {
            proof {
                let q = ts.subrange(0, i + 1);
                assert(q.drop_last() =~= ts.subrange(0, i as int));
                assert(q.last() == ts[i as int]);
            }
            if Self::id_seen(tasks, i, &tasks[i].id) {
                Self::push(out, TaskQualityIssue::DuplicateTaskId { task_id: tasks[i].id.clone() }, 0);
            }
            proof {
                assert(findings_view(*out) =~= both(base, duplicate_check(ts.subrange(0, i + 1))));
            }
            i = i + 1;
        }
        proof {
            assert(ts.subrange(0, tasks.len() as int) =~= ts);
        }
    }

    fn check_descriptions(&self, tasks: &[PlannedTask], out: &mut TaskQualityFindings)
        ensures
            findings_view(*final(out)) == both(findings_view(*old(out)), description_check(tasks@)),
    {
        let ghost ts = tasks@;
        let ghost base = findings_view(*out);
        let mut i: usize = 0;
        proof {
            assert(ts.subrange(0, 0) =~= Seq::<PlannedTask>::empty());
            assert(both(base, description_check(ts.subrange(0, 0))) =~= base);
        }
        while i < tasks.len()
            invariant
                0 <= i <= tasks.len(),
                ts == tasks@,
                findings_view(*out) == both(base, description_check(ts.subrange(0, i as int))),
            decreases tasks.len() - i,
        {
            proof {
                let q = ts.subrange(0, i + 1);
                assert(q.drop_last() =~= ts.subrange(0, i as int));
                assert(q.last() == ts[i as int]);
            }
            let task = &tasks[i];
            if trimmed_len(task.description.as_str()) < 3 {
                Self::push(
                    out,
                    TaskQualityIssue::VagueDescription { task_id: task.id.clone(), description: task.description.clone() },
                    4,
                );
            } else {
                Self::score(out, 10);
            }
            proof {
                assert(findings_view(*out) =~= both(base, description_check(ts.subrange(0, i + 1))));
            }
            i = i + 1;
        }
        proof {
            assert(ts.subrange(0, tasks.len() as int) =~= ts);
        }
    }
}

/// The dependency map of the tasks has a cycle exactly when the tasks do,
/// and its cycle paths are cycles among the tasks.
proof fn lemma_seq_cycles(ts: Seq<PlannedTask>, m: DependencyMap)
    requires
        forall|x: Seq<char>| #[trigger] m.lookup(x) == last_deps(ts, x),
    ensures
        m.has_cycle() <==> tasks_have_cycle(ts),
        forall|p: Seq<Seq<char>>| #[trigger] m.is_cycle_path(p) ==> is_task_cycle(ts, p),
{
    assert forall|a: Seq<char>, b: Seq<char>| #[trigger] m.edge(a, b) == seq_depends(ts, a, b) by {
        assert(m.lookup(a) == last_deps(ts, a));
    }
    if m.has_cycle() {
        let w = choose|w: Seq<Seq<char>>| m.is_closed_walk(w);
        assert forall|i: int| 0 <= i < w.len() - 1 implies #[trigger] seq_depends(ts, w[i], w[i + 1]) by {
            assert(m.edge(w[i], w[i + 1]));
        }
    }
    if tasks_have_cycle(ts) {
        let w = choose|w: Seq<Seq<char>>|
            w.len() >= 2 && w[0] == w.last() && forall|i: int| 0 <= i < w.len() - 1 ==> #[trigger] seq_depends(ts, w[i], w[i + 1]);
        assert forall|i: int| 0 <= i < w.len() - 1 implies #[trigger] m.edge(w[i], w[i + 1]) by {
            assert(seq_depends(ts, w[i], w[i + 1]));
        }
        assert(m.is_closed_walk(w));
    }
    assert forall|p: Seq<Seq<char>>| #[trigger] m.is_cycle_path(p) implies is_task_cycle(ts, p) by {
        assert forall|i: int| 0 <= i < p.len() - 1 implies #[trigger] seq_depends(ts, p[i], p[i + 1]) by {
            assert(m.edge(p[i], p[i + 1]));
        }
    }
}

/// Map from each task id to its dependencies; a later task with the same
/// id replaces an earlier one.
fn dependency_map_of(tasks: &[PlannedTask]) -> (m: DependencyMap)
    ensures
        forall|x: Seq<char>| #[trigger] m.lookup(x) == last_deps(tasks@, x),
{
    let ghost ts = tasks@;
    let mut m = DependencyMap::new();
    let mut i: usize = 0;
    proof {
        assert(ts.subrange(0, 0) =~= Seq::<PlannedTask>::empty());
        assert forall|x: Seq<char>| #[trigger] m.lookup(x) == last_deps(ts.subrange(0, 0), x) by {}
    }
    while i < tasks.len()
        invariant
            0 <= i <= tasks.len(),
            ts == tasks@,
            forall|x: Seq<char>| #[trigger] m.lookup(x) == last_deps(ts.subrange(0, i as int), x),
        decreases tasks.len() - i,
    {
        proof {
            let q = ts.subrange(0, i + 1);
            assert(q.drop_last() =~= ts.subrange(0, i as int));
            assert(q.last() == ts[i as int]);
        }
        m.insert(tasks[i].id.clone(), clone_strings(&tasks[i].dependencies));
        i = i + 1;
    }
    proof {
        assert(ts.subrange(0, tasks.len() as int) =~= ts);
    }
    m
}

impl TaskQualityValidator {
    fn id_exists(tasks: &[PlannedTask], id: &String) -> (b: bool)
        ensures
            b == task_exists(tasks@, id@),
    {
        let b = Self::id_seen(tasks, tasks.len(), id);
        proof {
            assert(tasks@.subrange(0, tasks@.len() as int) =~= tasks@);
        }
        b
    }

    fn check_dependencies(&self, tasks: &[PlannedTask], out: &mut TaskQualityFindings)
        ensures
            findings_view(*final(out)) == both(findings_view(*old(out)), dependency_check(tasks@, tasks@)),
    {
        let ghost ts = tasks@;
        let ghost base = findings_view(*out);
        let mut i: usize = 0;
        proof {
            assert(ts.subrange(0, 0) =~= Seq::<PlannedTask>::empty());
            assert(both(base, dependency_check(ts, ts.subrange(0, 0))) =~= base);
        }
        while i < tasks.len()
            invariant
                0 <= i <= tasks.len(),
                ts == tasks@,
                findings_view(*out) == both(base, dependency_check(ts, ts.subrange(0, i as int))),
            decreases tasks.len() - i,
        {
            let task = &tasks[i];
            let ghost ds = names(task.dependencies@);
            let ghost start = findings_view(*out);
            let mut k: usize = 0;
            proof {
                assert(ds.subrange(0, 0) =~= Seq::<Seq<char>>::empty());
                assert(both(start, task_dep_check(ts, task.id@, ds.subrange(0, 0))) =~= start);
            }
            while k < task.dependencies.len()
                invariant
                    0 <= k <= task.dependencies.len(),
                    ts == tasks@,
                    ds == names(task.dependencies@),
                    findings_view(*out) == both(start, task_dep_check(ts, task.id@, ds.subrange(0, k as int))),
                decreases task.dependencies.len() - k,
            {
                let dep = &task.dependencies[k];
                proof {
                    let q = ds.subrange(0, k + 1);
                    assert(q.drop_last() =~= ds.subrange(0, k as int));
                    assert(q.last() == dep@);
                }
                if !Self::id_exists(tasks, dep) {
                    Self::push(out, TaskQualityIssue::MissingDependency { task_id: task.id.clone(), missing: dep.clone() }, 2);
                }
                proof {
                    assert(findings_view(*out) =~= both(start, task_dep_check(ts, task.id@, ds.subrange(0, k + 1))));
                }
                k = k + 1;
            }
            proof {
                assert(ds.subrange(0, task.dependencies.len() as int) =~= ds);
                let q = ts.subrange(0, i + 1);
                assert(q.drop_last() =~= ts.subrange(0, i as int));
                assert(q.last() == ts[i as int]);
                assert(findings_view(*out) =~= both(base, dependency_check(ts, ts.subrange(0, i + 1))));
            }
            i = i + 1;
        }
        proof {
            assert(ts.subrange(0, tasks.len() as int) =~= ts);
        }
    }

    fn check_cycles(&self, tasks: &[PlannedTask], out: &mut TaskQualityFindings)
        ensures
            !tasks_have_cycle(tasks@) ==> findings_view(*final(out)) == findings_view(*old(out)),
            tasks_have_cycle(tasks@) ==> exists|p: Seq<Seq<char>>|
                #[trigger] is_task_cycle(tasks@, p) && findings_view(*final(out)) == both(
                    findings_view(*old(out)),
                    (seq![IssueV::Cycle(p)], seq![0u8]),
                ),
    {
        let deps = dependency_map_of(tasks);
        proof {
            lemma_seq_cycles(tasks@, deps);
        }
        match detect_cycle(&deps) {
            Some(cycle) => {
                let ghost p = names(cycle@);
                Self::push(out, TaskQualityIssue::CircularDependency { task_ids: cycle }, 0);
                proof {
                    assert(is_task_cycle(tasks@, p));
                }
            },
            None => {},
        }
    }

    /// Runs every check on `tasks` (the task breakdown, flattened) against
    /// the user stories `story_ids`. `directories` lists the affected files
    /// that are existing directories under the working directory; it is
    /// consulted only when a working directory is set.
    pub fn validate(&self, tasks: &[PlannedTask], story_ids: &[String], directories: &Vec<String>) -> (f:
        TaskQualityFindings)
        requires
            tasks@.len() < self.settings().min_tasks_per_story * (if story_ids@.len() == 0 {
                1
            } else {
                story_ids@.len() as int
            }) ==> self.settings().min_tasks_per_story * (if story_ids@.len() == 0 {
                1
            } else {
                story_ids@.len() as int
            }) <= usize::MAX,
        ensures
            ({
                let a = acyclic_checks(
                    tasks@,
                    names(story_ids@),
                    self.settings(),
                    names(directories@),
                    self.dir() is Some,
                );
                &&& !tasks_have_cycle(tasks@) ==> findings_view(f) == a
                &&& tasks_have_cycle(tasks@) ==> exists|p: Seq<Seq<char>>|
                    #[trigger] is_task_cycle(tasks@, p) && findings_view(f) == both(a, (seq![IssueV::Cycle(p)], seq![0u8]))
            }),
    {
        let mut out = TaskQualityFindings { issues: Vec::new(), scores: Vec::new() };
        proof {
            assert(findings_view(out) =~= (Seq::<IssueV>::empty(), Seq::<u8>::empty()));
        }
        let story_count = if story_ids.len() == 0 {
            1
        } else {
            story_ids.len()
        };
        self.check_task_count(tasks, story_count, &mut out);
        self.check_story_coverage(tasks, story_ids, &mut out);
        self.check_affected_files(tasks, directories, &mut out);
        self.check_duplicate_ids(tasks, &mut out);
        self.check_descriptions(tasks, &mut out);
        self.check_dependencies(tasks, &mut out);
        let ghost mid = findings_view(out);
        proof {
            let e: Checked = (Seq::empty(), Seq::empty());
            assert(both(e, count_check(tasks@.len(), story_count as nat, self.settings().min_tasks_per_story as nat, self.settings().max_tasks_per_story as nat)) =~= count_check(tasks@.len(), story_count as nat, self.settings().min_tasks_per_story as nat, self.settings().max_tasks_per_story as nat));
        }
        self.check_cycles(tasks, &mut out);
        out
    }
}

} // verus!

verus! {

/// The task-count check comes first: over `k` stories (at least one), the
/// breakdown is flagged as too small exactly when it has fewer than
/// `min_tasks_per_story * k` tasks, scoring 5 tenths, and otherwise as too
/// large exactly when it has more than `max_tasks_per_story * k`, scoring
/// 7 tenths; a count within the bounds scores 10 tenths.
pub proof fn lemma_task_count_first(
    ts: Seq<PlannedTask>,
    ids: Seq<Seq<char>>,
    cfg: TaskDecompositionConfig,
    dirs: Seq<Seq<char>>,
    has_dir: bool,
)
    ensures
        ({
            let a = acyclic_checks(ts, ids, cfg, dirs, has_dir);
            let k: nat = if ids.len() == 0 { 1 } else { ids.len() };
            let lo: nat = cfg.min_tasks_per_story as nat * k;
            let hi: nat = cfg.max_tasks_per_story as nat * k;
            &&& a.1.len() > 0
            &&& a.1[0] == if ts.len() < lo { 5u8 } else if ts.len() > hi { 7u8 } else { 10u8 }
            &&& ts.len() < lo ==> a.0.len() > 0 && a.0[0] == IssueV::TooFew("overall"@, ts.len(), lo)
            &&& !(ts.len() < lo) && ts.len() > hi ==> a.0.len() > 0 && a.0[0] == IssueV::TooMany("overall"@, ts.len(), hi)
        }),
{
    let c = count_check(ts.len(), ids.len(), cfg.min_tasks_per_story as nat, cfg.max_tasks_per_story as nat);
    let a = acyclic_checks(ts, ids, cfg, dirs, has_dir);
    let f = if cfg.require_affected_files { file_check(ts, dirs, has_dir) } else { (Seq::empty(), Seq::empty()) };
    let r0 = coverage_check(ts, ids).0 + f.0 + duplicate_check(ts).0 + description_check(ts).0 + dependency_check(ts, ts).0;
    let r1 = coverage_check(ts, ids).1 + f.1 + duplicate_check(ts).1 + description_check(ts).1 + dependency_check(ts, ts).1;
    assert(a.0 =~= c.0 + r0);
    assert(a.1 =~= c.1 + r1);
    assert((c.1 + r1)[0] == c.1[0]);
    if c.0.len() > 0 {
        assert((c.0 + r0)[0] == c.0[0]);
    }
}

} // verus!
