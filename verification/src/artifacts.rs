//! Planning artifacts: the specification, the implementation plan and the
//! task breakdown, with their Markdown renderings.

use vstd::prelude::*;
use crate::domain::{IsolationMode, Priority, RiskLevel};
use crate::graph::{DependencyMap, names};
use crate::alignment::distinct;
use crate::names::clone_strings;

verus! {

/// The feature specification: user stories, requirements, open questions
/// and the criteria for success.
#[derive(Debug)]
pub struct SpecArtifact {
    pub user_stories: Vec<UserStory>,
    pub requirements: Vec<Requirement>,
    pub clarifications: Vec<Clarification>,
    pub success_criteria: Vec<String>,
}

/// A user story with its priority and acceptance scenarios.
#[derive(Debug)]
pub struct UserStory {
    pub id: String,
    pub title: String,
    pub priority: Priority,
    pub description: String,
    pub acceptance_scenarios: Vec<AcceptanceScenario>,
    pub independent_test: String,
}

/// One given/when/then acceptance scenario.
#[derive(Debug)]
pub struct AcceptanceScenario {
    pub given: String,
    pub when: String,
    pub outcome: String,
}

/// A functional requirement, possibly waiting for clarification.
#[derive(Debug)]
pub struct Requirement {
    pub id: String,
    pub description: String,
    pub needs_clarification: bool,
    pub clarification_note: Option<String>,
}

/// A question the specification leaves open, with suggested answers.
#[derive(Debug)]
pub struct Clarification {
    pub id: String,
    pub question: String,
    pub context: String,
    pub options: Vec<ClarificationOption>,
    pub resolved: bool,
    pub answer: Option<String>,
}

/// One suggested answer to a clarification.
#[derive(Debug)]
pub struct ClarificationOption {
    pub label: String,
    pub description: String,
    pub recommended: bool,
}

/// The clarifications still waiting for an answer, in order.
pub open spec fn pending(cs: Seq<Clarification>) -> Seq<Clarification>
    decreases cs.len(),
{
    if cs.len() == 0 {
        Seq::empty()
    } else if cs.last().resolved {
        pending(cs.drop_last())
    } else {
        pending(cs.drop_last()).push(cs.last())
    }
}

impl SpecArtifact {
    /// Some clarification is still unresolved.
    pub fn has_clarifications(&self) -> (b: bool)
        ensures
            b == exists|i: int| 0 <= i < self.clarifications@.len() && !(#[trigger] self.clarifications@[i]).resolved,
    {
        let mut i: usize = 0;
        while i < self.clarifications.len()
            invariant
                0 <= i <= self.clarifications.len(),
                forall|k: int| 0 <= k < i ==> (#[trigger] self.clarifications@[k]).resolved,
            decreases self.clarifications.len() - i,
        {
            if !self.clarifications[i].resolved {
                return true;
            }
            i = i + 1;
        }
        false
    }

    /// The unresolved clarifications, in order.
    pub fn pending_clarifications(&self) -> (v: Vec<&Clarification>)
        ensures
            v@.map_values(|c: &Clarification| *c) == pending(self.clarifications@),
    {
        let mut v: Vec<&Clarification> = Vec::new();
        let ghost cs = self.clarifications@;
        let mut i: usize = 0;
        proof {
            assert(cs.subrange(0, 0) =~= Seq::<Clarification>::empty());
            assert(v@.map_values(|c: &Clarification| *c) =~= Seq::<Clarification>::empty());
        }
        while i < self.clarifications.len()
            invariant
                0 <= i <= self.clarifications.len(),
                cs == self.clarifications@,
                v@.map_values(|c: &Clarification| *c) == pending(cs.subrange(0, i as int)),
            decreases self.clarifications.len() - i,
        {
            proof {
                assert(cs.subrange(0, i + 1).drop_last() =~= cs.subrange(0, i as int));
            }
            let ghost v0 = v@.map_values(|c: &Clarification| *c);
            if !self.clarifications[i].resolved {
                v.push(&self.clarifications[i]);
                proof {
                    assert(v@.map_values(|c: &Clarification| *c) =~= v0.push(cs[i as int]));
                }
            }
            i = i + 1;
        }
        proof {
            assert(cs.subrange(0, cs.len() as int) =~= cs);
        }
        v
    }
}

/// The implementation plan: technical context, project structure,
/// constitution check and risk assessment.
#[derive(Debug)]
pub struct PlanArtifact {
    pub summary: String,
    pub technical_context: TechnicalContext,
    pub project_structure: ProjectStructure,
    pub constitution_check: ConstitutionCheck,
    pub risk_assessment: RiskAssessment,
}

/// The language, dependencies, storage, testing and platform of the project.
#[derive(Debug)]
pub struct TechnicalContext {
    pub language: String,
    pub primary_dependencies: Vec<String>,
    pub storage: Option<String>,
    pub testing: String,
    pub target_platform: String,
}

/// The layout of the change: existing paths it touches and new ones.
#[derive(Debug)]
pub struct ProjectStructure {
    pub structure_type: StructureType,
    pub affected_paths: Vec<String>,
    pub new_paths: Vec<String>,
}

/// The kind of project being changed.
#[derive(Clone, Copy, Debug, PartialEq, Eq, Structural)]
pub enum StructureType {
    SingleProject,
    WebApp,
    Mobile,
    Monorepo,
}

/// How the plan fares against each principle of the constitution.
#[derive(Debug)]
pub struct ConstitutionCheck {
    pub fact_based: PrincipleCheckResult,
    pub code_consistency: PrincipleCheckResult,
    pub dry_principle: PrincipleCheckResult,
    pub work_verification: PrincipleCheckResult,
    pub minimal_scope: PrincipleCheckResult,
    pub intellectual_honesty: PrincipleCheckResult,
}

/// Whether one principle holds, with an optional note.
#[derive(Debug)]
pub struct PrincipleCheckResult {
    pub passed: bool,
    pub note: Option<String>,
}

/// The plan's overall risk, its factors, the isolation recommended and
/// the way back.
#[derive(Debug)]
pub struct RiskAssessment {
    pub overall_risk: RiskLevel,
    pub factors: Vec<RiskFactor>,
    pub recommended_isolation: IsolationMode,
    pub rollback_strategy: String,
}

/// One risk, its impact and its mitigation.
#[derive(Debug)]
pub struct RiskFactor {
    pub factor: String,
    pub impact: RiskLevel,
    pub mitigation: String,
}

/// The task breakdown: phases in execution order.
#[derive(Debug)]
pub struct TasksArtifact {
    pub phases: Vec<TaskPhase>,
}

/// A group of related tasks with an optional verification checkpoint.
#[derive(Debug)]
pub struct TaskPhase {
    pub id: String,
    pub name: String,
    pub purpose: String,
    pub tasks: Vec<PlannedTask>,
    pub checkpoint: Option<String>,
}

/// One planned task.
#[derive(Debug)]
pub struct PlannedTask {
    pub id: String,
    pub description: String,
    pub user_story: Option<String>,
    pub parallel: bool,
    pub dependencies: Vec<String>,
    pub affected_files: Vec<String>,
    pub test_patterns: Vec<String>,
}

/// A dependency dropped during task-id normalisation because it named no task.
#[derive(Debug)]
pub struct DroppedDependency {
    pub task_id: String,
    pub invalid_dep: String,
}

/// Every task of every phase, phase by phase.
pub open spec fn all_tasks(phases: Seq<TaskPhase>) -> Seq<PlannedTask>
    decreases phases.len(),
{
    if phases.len() == 0 {
        Seq::empty()
    } else {
        all_tasks(phases.drop_last()) + phases.last().tasks@
    }
}

/// Number of tasks that may run in parallel.
pub open spec fn count_parallel(ts: Seq<PlannedTask>) -> nat
    decreases ts.len(),
{
    if ts.len() == 0 {
        0
    } else {
        count_parallel(ts.drop_last()) + if ts.last().parallel { 1nat } else { 0nat }
    }
}

/// Adding one more phase adds its tasks after those of the phases before it.
pub proof fn lemma_all_tasks_step(phases: Seq<TaskPhase>, i: int)
    requires
        0 <= i < phases.len(),
    ensures
        all_tasks(phases.subrange(0, i + 1)) == all_tasks(phases.subrange(0, i)) + phases[i].tasks@,
{
    assert(phases.subrange(0, i + 1).drop_last() =~= phases.subrange(0, i));
}

impl TasksArtifact {
    /// Total number of planned tasks.
    pub open spec fn task_count(&self) -> nat {
        all_tasks(self.phases@).len()
    }

    /// Total number of tasks across phases.
    pub fn total_tasks(&self) -> (n: usize)
        requires
            self.task_count() <= usize::MAX,
        ensures
            n == self.task_count(),
    {
        let ghost ps = self.phases@;
        let mut n: usize = 0;
        let mut i: usize = 0;
        proof {
            assert(ps.subrange(0, 0) =~= Seq::<TaskPhase>::empty());
        }
        while i < self.phases.len()
            invariant
                0 <= i <= self.phases.len(),
                ps == self.phases@,
                all_tasks(ps).len() <= usize::MAX,
                n == all_tasks(ps.subrange(0, i as int)).len(),
            decreases self.phases.len() - i,
        {
            proof {
                lemma_all_tasks_step(ps, i as int);
                lemma_all_tasks_prefix_len(ps, i + 1);
            }
            n = n + self.phases[i].tasks.len();
            i = i + 1;
        }
        proof {
            assert(ps.subrange(0, ps.len() as int) =~= ps);
        }
        n
    }

    /// Number of tasks marked parallel.
    pub fn parallel_tasks(&self) -> (n: usize)
        requires
            self.task_count() <= usize::MAX,
        ensures
            n == count_parallel(all_tasks(self.phases@)),
    {
        let ghost ps = self.phases@;
        let mut n: usize = 0;
        let mut i: usize = 0;
        proof {
            assert(ps.subrange(0, 0) =~= Seq::<TaskPhase>::empty());
        }
        while i < self.phases.len()
            invariant
                0 <= i <= self.phases.len(),
                ps == self.phases@,
                all_tasks(ps).len() <= usize::MAX,
                n == count_parallel(all_tasks(ps.subrange(0, i as int))),
            decreases self.phases.len() - i,
        {
            let tasks = &self.phases[i].tasks;
            let ghost before = all_tasks(ps.subrange(0, i as int));
            proof {
                lemma_all_tasks_step(ps, i as int);
                lemma_count_parallel_bound(before);
            }
            let mut j: usize = 0;
            while j < tasks.len()
                invariant
                    0 <= j <= tasks.len(),
                    0 <= i < ps.len(),
                    all_tasks(ps).len() <= usize::MAX,
                    tasks@ == ps[i as int].tasks@,
                    n == count_parallel(before + tasks@.subrange(0, j as int)),
                    n <= before.len() + j,
                    before.len() + tasks.len() == all_tasks(ps.subrange(0, i + 1)).len(),
                decreases tasks.len() - j,
            {
                proof {
                    let s = before + tasks@.subrange(0, j + 1);
                    assert(s.drop_last() =~= before + tasks@.subrange(0, j as int));
                    lemma_count_parallel_bound(before + tasks@.subrange(0, j as int));
                    lemma_all_tasks_prefix_len(ps, i + 1);
                }
                proof {
                    assert(before.len() + j < all_tasks(ps.subrange(0, i + 1)).len());
                }
                if tasks[j].parallel {
                    n = n + 1;
                }
                j = j + 1;
            }
            proof {
                assert(tasks@.subrange(0, tasks.len() as int) =~= tasks@);
            }
            i = i + 1;
        }
        proof {
            assert(ps.subrange(0, ps.len() as int) =~= ps);
        }
        n
    }
}

/// No more tasks can run in parallel than there are tasks.
pub proof fn lemma_count_parallel_bound(ts: Seq<PlannedTask>)
    ensures
        count_parallel(ts) <= ts.len(),
    decreases ts.len(),
{
    if ts.len() > 0 {
        lemma_count_parallel_bound(ts.drop_last());
    }
}

/// Tasks in a prefix of the phases fit in memory as a sequence.
proof fn lemma_all_tasks_prefix_len(ps: Seq<TaskPhase>, k: int)
    requires
        0 <= k <= ps.len(),
    ensures
        all_tasks(ps.subrange(0, k)).len() <= all_tasks(ps).len(),
    decreases ps.len() - k,
{
    if k < ps.len() {
        lemma_all_tasks_prefix_len(ps, k + 1);
        lemma_all_tasks_step(ps, k);
    } else {
        assert(ps.subrange(0, k) =~= ps);
    }
}

} // verus!

verus! {

/// The dependencies of the last task with a given id.
pub open spec fn last_deps(ts: Seq<PlannedTask>, x: Seq<char>) -> Option<Seq<Seq<char>>>
    decreases ts.len(),
{
    if ts.len() == 0 {
        None
    } else if ts.last().id@ == x {
        Some(names(ts.last().dependencies@))
    } else {
        last_deps(ts.drop_last(), x)
    }
}

/// The ids of the tasks, in order.
pub open spec fn task_ids(ts: Seq<PlannedTask>) -> Seq<Seq<char>> {
    ts.map_values(|t: PlannedTask| t.id@)
}

/// Some task carries the id exactly when a last task with it exists.
proof fn lemma_last_deps_some(ts: Seq<PlannedTask>, x: Seq<char>)
    ensures
        last_deps(ts, x) is Some <==> task_ids(ts).contains(x),
    decreases ts.len(),
{
    if ts.len() > 0 {
        lemma_last_deps_some(ts.drop_last(), x);
        let init = task_ids(ts.drop_last());
        assert(task_ids(ts) =~= init.push(ts.last().id@));
        if init.contains(x) {
            let k = choose|k: int| 0 <= k < init.len() && init[k] == x;
            assert(task_ids(ts)[k] == x);
        }
        if task_ids(ts).contains(x) {
            let k = choose|k: int| 0 <= k < task_ids(ts).len() && task_ids(ts)[k] == x;
            if k < init.len() {
                assert(init[k] == x);
            }
        }
        if ts.last().id@ == x {
            assert(task_ids(ts)[ts.len() - 1] == x);
        }
    } else {
        assert(task_ids(ts).len() == 0);
    }
}

/// Removing repeats keeps exactly the same elements, no more of them than
/// there were, and none twice.
proof fn lemma_distinct_props(s: Seq<Seq<char>>)
    ensures
        forall|x: Seq<char>| #[trigger] distinct(s).contains(x) <==> s.contains(x),
        distinct(s).len() <= s.len(),
        distinct(s).no_duplicates(),
    decreases s.len(),
{
    if s.len() > 0 {
        let init = s.drop_last();
        let y = s.last();
        lemma_distinct_props(init);
        let d = distinct(init);
        assert forall|x: Seq<char>| #[trigger] s.contains(x) <==> (init.contains(x) || x == y) by {
            if s.contains(x) {
                let k = choose|k: int| 0 <= k < s.len() && s[k] == x;
                if k < init.len() {
                    assert(init[k] == x);
                }
            }
            if init.contains(x) {
                let k = choose|k: int| 0 <= k < init.len() && init[k] == x;
                assert(s[k] == x);
            }
            if x == y {
                assert(s[s.len() - 1] == x);
            }
        }
        if !d.contains(y) {
            let r = d.push(y);
            assert forall|x: Seq<char>| #[trigger] r.contains(x) <==> (d.contains(x) || x == y) by {
                if r.contains(x) {
                    let k = choose|k: int| 0 <= k < r.len() && r[k] == x;
                    if k < d.len() {
                        assert(d[k] == x);
                    }
                }
                if d.contains(x) {
                    let k = choose|k: int| 0 <= k < d.len() && d[k] == x;
                    assert(r[k] == x);
                }
                if x == y {
                    assert(r[d.len() as int] == x);
                }
            }
            assert forall|a: int, b: int| 0 <= a < r.len() && 0 <= b < r.len() && a != b implies r[a] != r[b] by {
                if a < d.len() && b < d.len() {
                } else if a == d.len() {
                    assert(r[b] == d[b]);
                } else {
                    assert(r[a] == d[a]);
                }
            }
        }
    }
}

impl TasksArtifact {
    /// Map from each task id to its dependencies (a later task with the
    /// same id replaces an earlier one). It has one entry per distinct task
    /// id, in the order the ids first occur.
    pub fn to_dependency_map(&self) -> (m: DependencyMap)
        ensures
            forall|x: Seq<char>| #[trigger] m.lookup(x) == last_deps(all_tasks(self.phases@), x),
            m.keys() == distinct(task_ids(all_tasks(self.phases@))),
            m.keys().no_duplicates(),
            m.keys().len() <= self.task_count(),
    {
        let ghost ps = self.phases@;
        let mut m = DependencyMap::new();
        let mut i: usize = 0;
        proof {
            assert(ps.subrange(0, 0) =~= Seq::<TaskPhase>::empty());
            assert forall|x: Seq<char>| #[trigger] m.lookup(x) == last_deps(all_tasks(ps.subrange(0, 0)), x) by {}
            assert(task_ids(all_tasks(ps.subrange(0, 0))) =~= Seq::<Seq<char>>::empty());
            assert(m.keys() =~= Seq::<Seq<char>>::empty());
        }
        while i < self.phases.len()
            invariant
                0 <= i <= self.phases.len(),
                ps == self.phases@,
                forall|x: Seq<char>| #[trigger] m.lookup(x) == last_deps(all_tasks(ps.subrange(0, i as int)), x),
                m.keys() == distinct(task_ids(all_tasks(ps.subrange(0, i as int)))),
            decreases self.phases.len() - i,
        {
            let tasks = &self.phases[i].tasks;
            let ghost before = all_tasks(ps.subrange(0, i as int));
            proof {
                lemma_all_tasks_step(ps, i as int);
                assert(before + tasks@.subrange(0, 0) =~= before);
            }
            let mut j: usize = 0;
            while j < tasks.len()
                invariant
                    0 <= j <= tasks.len(),
                    forall|x: Seq<char>| #[trigger] m.lookup(x) == last_deps(before + tasks@.subrange(0, j as int), x),
                    m.keys() == distinct(task_ids(before + tasks@.subrange(0, j as int))),
                decreases tasks.len() - j,
            {
                let ghost s = before + tasks@.subrange(0, j + 1);
                let ghost prev = before + tasks@.subrange(0, j as int);
                proof {
                    assert(s.drop_last() =~= prev);
                    assert(s.last() == tasks@[j as int]);
                    assert(task_ids(s) =~= task_ids(prev).push(tasks@[j as int].id@));
                    assert(task_ids(s).drop_last() =~= task_ids(prev));
                    lemma_last_deps_some(prev, tasks@[j as int].id@);
                    lemma_distinct_props(task_ids(prev));
                }
                m.insert(tasks[j].id.clone(), clone_strings(&tasks[j].dependencies));
                j = j + 1;
            }
            proof {
                assert(tasks@.subrange(0, tasks.len() as int) =~= tasks@);
            }
            i = i + 1;
        }
        proof {
            assert(ps.subrange(0, ps.len() as int) =~= ps);
            lemma_distinct_props(task_ids(all_tasks(ps)));
        }
        m
    }
}

} // verus!

verus! {

use crate::text::{decimal, lemma_decimal_digits, lemma_decimal_injective, push_decimal, push_str};

/// The normalised id of task `t` of phase `p` (both counted from zero).
pub open spec fn task_label(p: nat, t: nat) -> Seq<char> {
    "P"@ + decimal(p + 1) + "T"@ + decimal(t + 1)
}

/// Old and new ids of the tasks of phase `p`, in order.
pub open spec fn phase_pairs(ts: Seq<PlannedTask>, p: nat) -> Seq<(Seq<char>, Seq<char>)>
    decreases ts.len(),
{
    if ts.len() == 0 {
        Seq::empty()
    } else {
        phase_pairs(ts.drop_last(), p).push((ts.last().id@, task_label(p, (ts.len() - 1) as nat)))
    }
}

/// Old and new ids of every task, phase by phase.
pub open spec fn id_pairs(phases: Seq<TaskPhase>) -> Seq<(Seq<char>, Seq<char>)>
    decreases phases.len(),
{
    if phases.len() == 0 {
        Seq::empty()
    } else {
        id_pairs(phases.drop_last()) + phase_pairs(phases.last().tasks@, (phases.len() - 1) as nat)
    }
}

/// The new id for an old one: that of the last task carrying it.
pub open spec fn renamed(pairs: Seq<(Seq<char>, Seq<char>)>, k: Seq<char>) -> Option<Seq<char>>
    decreases pairs.len(),
{
    if pairs.len() == 0 {
        None
    } else if pairs.last().0 == k {
        Some(pairs.last().1)
    } else {
        renamed(pairs.drop_last(), k)
    }
}

/// Dependencies that name a task, renamed; the others are left out.
pub open spec fn kept_deps(pairs: Seq<(Seq<char>, Seq<char>)>, deps: Seq<Seq<char>>) -> Seq<Seq<char>>
    decreases deps.len(),
{
    if deps.len() == 0 {
        Seq::empty()
    } else {
        match renamed(pairs, deps.last()) {
            Some(n) => kept_deps(pairs, deps.drop_last()).push(n),
            None => kept_deps(pairs, deps.drop_last()),
        }
    }
}

/// The dependencies that name no task, paired with the (new) id of the
/// task that declared them.
pub open spec fn dropped_deps(pairs: Seq<(Seq<char>, Seq<char>)>, id: Seq<char>, deps: Seq<Seq<char>>) -> Seq<(Seq<char>, Seq<char>)>
    decreases deps.len(),
{
    if deps.len() == 0 {
        Seq::empty()
    } else {
        match renamed(pairs, deps.last()) {
            Some(_) => dropped_deps(pairs, id, deps.drop_last()),
            None => dropped_deps(pairs, id, deps.drop_last()).push((id, deps.last())),
        }
    }
}

pub open spec fn dropped_in_phase(pairs: Seq<(Seq<char>, Seq<char>)>, ts: Seq<PlannedTask>, p: nat) -> Seq<(Seq<char>, Seq<char>)>
    decreases ts.len(),
{
    if ts.len() == 0 {
        Seq::empty()
    } else {
        dropped_in_phase(pairs, ts.drop_last(), p) + dropped_deps(
            pairs,
            task_label(p, (ts.len() - 1) as nat),
            names(ts.last().dependencies@),
        )
    }
}

/// Every dropped dependency, phase by phase and task by task.
pub open spec fn dropped_all(pairs: Seq<(Seq<char>, Seq<char>)>, phases: Seq<TaskPhase>) -> Seq<(Seq<char>, Seq<char>)>
    decreases phases.len(),
{
    if phases.len() == 0 {
        Seq::empty()
    } else {
        dropped_all(pairs, phases.drop_last()) + dropped_in_phase(pairs, phases.last().tasks@, (phases.len() - 1) as nat)
    }
}

pub open spec fn opt_views(o: Option<String>) -> Option<Seq<char>> {
    match o {
        Some(s) => Some(s@),
        None => None,
    }
}

fn copy_opt(o: &Option<String>) -> (r: Option<String>)
    ensures
        opt_views(r) == opt_views(*o),
{
    match o {
        Some(s) => Some(s.clone()),
        None => None,
    }
}

/// `P{p+1}T{t+1}`.
fn make_label(p: usize, t: usize) -> (s: String)
    requires
        p < usize::MAX,
        t < usize::MAX,
    ensures
        s@ == task_label(p as nat, t as nat),
{
    let mut s = String::new();
    push_str(&mut s, "P");
    push_decimal(&mut s, p as u64 + 1);
    push_str(&mut s, "T");
    push_decimal(&mut s, t as u64 + 1);
    proof {
        assert(s@ =~= task_label(p as nat, t as nat));
    }
    s
}

fn lookup_renamed(pairs: &Vec<(String, String)>, k: &String) -> (r: Option<String>)
    ensures
        opt_views(r) == renamed(pairs@.map_values(|e: (String, String)| (e.0@, e.1@)), k@),
{
    let ghost pv = pairs@.map_values(|e: (String, String)| (e.0@, e.1@));
    let mut i: usize = pairs.len();
    proof {
        assert(pv.subrange(0, pv.len() as int) =~= pv);
    }
    while i > 0
        invariant
            0 <= i <= pairs.len(),
            pv == pairs@.map_values(|e: (String, String)| (e.0@, e.1@)),
            renamed(pv, k@) == renamed(pv.subrange(0, i as int), k@),
        decreases i,
    {
        let ghost pre = pv.subrange(0, i as int);
        proof {
            assert(pre.drop_last() =~= pv.subrange(0, i - 1));
            assert(pre.last() == (pairs@[i - 1].0@, pairs@[i - 1].1@));
        }
        if pairs[i - 1].0 == *k {
            return Some(pairs[i - 1].1.clone());
        }
        i = i - 1;
    }
    proof {
        assert(pv.subrange(0, 0) =~= Seq::<(Seq<char>, Seq<char>)>::empty());
    }
    None
}

pub open spec fn pair_views(v: Seq<(String, String)>) -> Seq<(Seq<char>, Seq<char>)> {
    v.map_values(|e: (String, String)| (e.0@, e.1@))
}

pub open spec fn dropped_views(v: Seq<DroppedDependency>) -> Seq<(Seq<char>, Seq<char>)> {
    v.map_values(|d: DroppedDependency| (d.task_id@, d.invalid_dep@))
}

/// A task is the normalised form of another: renamed, with dependencies
/// resolved through `pairs`, everything else kept.
pub open spec fn normalized_task(new: PlannedTask, old: PlannedTask, label: Seq<char>, pairs: Seq<(Seq<char>, Seq<char>)>) -> bool {
    &&& new.id@ == label
    &&& new.description@ == old.description@
    &&& opt_views(new.user_story) == opt_views(old.user_story)
    &&& new.parallel == old.parallel
    &&& names(new.dependencies@) == kept_deps(pairs, names(old.dependencies@))
    &&& names(new.affected_files@) == names(old.affected_files@)
    &&& names(new.test_patterns@) == names(old.test_patterns@)
}

} // verus!

verus! {

pub open spec fn normalized_phase(new: TaskPhase, old: TaskPhase, p: nat, pairs: Seq<(Seq<char>, Seq<char>)>) -> bool {
    &&& new.id@ == old.id@
    &&& new.name@ == old.name@
    &&& new.purpose@ == old.purpose@
    &&& opt_views(new.checkpoint) == opt_views(old.checkpoint)
    &&& new.tasks@.len() == old.tasks@.len()
    &&& forall|t: int| 0 <= t < old.tasks@.len() ==> normalized_task(
        #[trigger] new.tasks@[t],
        old.tasks@[t],
        task_label(p, t as nat),
        pairs,
    )
}

fn collect_id_pairs(phases: &Vec<TaskPhase>) -> (pairs: Vec<(String, String)>)
    ensures
        pair_views(pairs@) == id_pairs(phases@),
{
    let ghost ps = phases@;
    let mut pairs: Vec<(String, String)> = Vec::new();
    let mut p: usize = 0;
    proof {
        assert(ps.subrange(0, 0) =~= Seq::<TaskPhase>::empty());
        assert(pair_views(pairs@) =~= Seq::<(Seq<char>, Seq<char>)>::empty());
    }
    while p < phases.len()
        invariant
            0 <= p <= phases.len(),
            ps == phases@,
            pair_views(pairs@) == id_pairs(ps.subrange(0, p as int)),
        decreases phases.len() - p,
    {
        let tasks = &phases[p].tasks;
        let ghost before = pair_views(pairs@);
        proof {
            assert(ps.subrange(0, p + 1).drop_last() =~= ps.subrange(0, p as int));
            assert(tasks@.subrange(0, 0) =~= Seq::<PlannedTask>::empty());
            assert(before + phase_pairs(tasks@.subrange(0, 0), p as nat) =~= before);
        }
        let mut t: usize = 0;
        while t < tasks.len()
            invariant
                0 <= t <= tasks.len(),
                p < phases.len(),
                pair_views(pairs@) == before + phase_pairs(tasks@.subrange(0, t as int), p as nat),
            decreases tasks.len() - t,
        {
            let label = make_label(p, t);
            let ghost b2 = pair_views(pairs@);
            pairs.push((tasks[t].id.clone(), label));
            proof {
                let q = tasks@.subrange(0, t + 1);
                assert(q.drop_last() =~= tasks@.subrange(0, t as int));
                assert(pair_views(pairs@) =~= b2.push((tasks@[t as int].id@, task_label(p as nat, t as nat))));
                assert(pair_views(pairs@) =~= before + phase_pairs(q, p as nat));
            }
            t = t + 1;
        }
        proof {
            assert(tasks@.subrange(0, tasks.len() as int) =~= tasks@);
        }
        p = p + 1;
    }
    proof {
        assert(ps.subrange(0, ps.len() as int) =~= ps);
    }
    pairs
}

fn normalize_deps(
    pairs: &Vec<(String, String)>,
    label: &String,
    deps: &Vec<String>,
    dropped: &mut Vec<DroppedDependency>,
) -> (kept: Vec<String>)
    ensures
        names(kept@) == kept_deps(pair_views(pairs@), names(deps@)),
        dropped_views(final(dropped)@) == dropped_views(old(dropped)@) + dropped_deps(pair_views(pairs@), label@, names(deps@)),
{
    let ghost pv = pair_views(pairs@);
    let ghost dv = names(deps@);
    let ghost d0 = dropped_views(dropped@);
    let mut kept: Vec<String> = Vec::new();
    let mut i: usize = 0;
    proof {
        assert(dv.subrange(0, 0) =~= Seq::<Seq<char>>::empty());
        assert(names(kept@) =~= Seq::<Seq<char>>::empty());
        assert(d0 + Seq::<(Seq<char>, Seq<char>)>::empty() =~= d0);
    }
    while i < deps.len()
        invariant
            0 <= i <= deps.len(),
            pv == pair_views(pairs@),
            dv == names(deps@),
            names(kept@) == kept_deps(pv, dv.subrange(0, i as int)),
            dropped_views(dropped@) == d0 + dropped_deps(pv, label@, dv.subrange(0, i as int)),
        decreases deps.len() - i,
    {
        let ghost q = dv.subrange(0, i + 1);
        proof {
            assert(q.drop_last() =~= dv.subrange(0, i as int));
            assert(q.last() == deps@[i as int]@);
        }
        let ghost k0 = names(kept@);
        let ghost r0 = dropped_views(dropped@);
        match lookup_renamed(pairs, &deps[i]) {
            Some(n) => {
                kept.push(n);
                proof {
                    assert(names(kept@) =~= k0.push(renamed(pv, deps@[i as int]@)->Some_0));
                }
            },
            None => {
                dropped.push(DroppedDependency { task_id: label.clone(), invalid_dep: deps[i].clone() });
                proof {
                    assert(dropped_views(dropped@) =~= r0.push((label@, deps@[i as int]@)));
                }
            },
        }
        i = i + 1;
    }
    proof {
        assert(dv.subrange(0, deps.len() as int) =~= dv);
    }
    kept
}

impl TasksArtifact {
    /// Renames every task to `P{phase}T{task}` (both from one) and rewrites
    /// dependencies to the new names. Dependencies that name no task are
    /// removed and returned, with the new id of the task that declared them.
    pub fn normalize_task_ids(&mut self) -> (dropped: Vec<DroppedDependency>)
        ensures
            final(self).phases@.len() == old(self).phases@.len(),
            forall|p: int| 0 <= p < old(self).phases@.len() ==> normalized_phase(
                #[trigger] final(self).phases@[p],
                old(self).phases@[p],
                p as nat,
                id_pairs(old(self).phases@),
            ),
            dropped_views(dropped@) == dropped_all(id_pairs(old(self).phases@), old(self).phases@),
    {
        let ghost ps = self.phases@;
        let pairs = collect_id_pairs(&self.phases);
        let ghost pv = pair_views(pairs@);
        let mut new_phases: Vec<TaskPhase> = Vec::new();
        let mut dropped: Vec<DroppedDependency> = Vec::new();
        let mut p: usize = 0;
        proof {
            assert(ps.subrange(0, 0) =~= Seq::<TaskPhase>::empty());
            assert(dropped_views(dropped@) =~= Seq::<(Seq<char>, Seq<char>)>::empty());
        }
        while p < self.phases.len()
            invariant
                0 <= p <= self.phases.len(),
                ps == self.phases@,
                pv == pair_views(pairs@),
                pv == id_pairs(ps),
                new_phases@.len() == p,
                forall|q: int| 0 <= q < p ==> normalized_phase(#[trigger] new_phases@[q], ps[q], q as nat, pv),
                dropped_views(dropped@) == dropped_all(pv, ps.subrange(0, p as int)),
            decreases self.phases.len() - p,
        {
            let phase = &self.phases[p];
            let ghost ts = phase.tasks@;
            let ghost dbefore = dropped_views(dropped@);
            proof {
                assert(ps.subrange(0, p + 1).drop_last() =~= ps.subrange(0, p as int));
                assert(ts.subrange(0, 0) =~= Seq::<PlannedTask>::empty());
                assert(dbefore + dropped_in_phase(pv, ts.subrange(0, 0), p as nat) =~= dbefore);
            }
            let mut new_tasks: Vec<PlannedTask> = Vec::new();
            let mut t: usize = 0;
            while t < phase.tasks.len()
                invariant
                    0 <= t <= phase.tasks.len(),
                    p < self.phases.len(),
                    ts == phase.tasks@,
                    pv == pair_views(pairs@),
                    new_tasks@.len() == t,
                    forall|k: int| 0 <= k < t ==> normalized_task(#[trigger] new_tasks@[k], ts[k], task_label(p as nat, k as nat), pv),
                    dropped_views(dropped@) == dbefore + dropped_in_phase(pv, ts.subrange(0, t as int), p as nat),
                decreases phase.tasks.len() - t,
            {
                let task = &phase.tasks[t];
                let label = make_label(p, t);
                let ghost dmid = dropped_views(dropped@);
                let deps = normalize_deps(&pairs, &label, &task.dependencies, &mut dropped);
                let nt = PlannedTask {
                    id: label,
                    description: task.description.clone(),
                    user_story: copy_opt(&task.user_story),
                    parallel: task.parallel,
                    dependencies: deps,
                    affected_files: clone_strings(&task.affected_files),
                    test_patterns: clone_strings(&task.test_patterns),
                };
                new_tasks.push(nt);
                proof {
                    let q = ts.subrange(0, t + 1);
                    assert(q.drop_last() =~= ts.subrange(0, t as int));
                    assert(q.last() == ts[t as int]);
                    assert(dropped_views(dropped@) =~= dbefore + dropped_in_phase(pv, q, p as nat));
                    assert forall|k: int| 0 <= k < t + 1 implies normalized_task(#[trigger] new_tasks@[k], ts[k], task_label(p as nat, k as nat), pv) by {
                    }
                }
                t = t + 1;
            }
            let np = TaskPhase {
                id: phase.id.clone(),
                name: phase.name.clone(),
                purpose: phase.purpose.clone(),
                tasks: new_tasks,
                checkpoint: copy_opt(&phase.checkpoint),
            };
            new_phases.push(np);
            proof {
                assert(ts.subrange(0, ts.len() as int) =~= ts);
                assert(dropped_views(dropped@) =~= dropped_all(pv, ps.subrange(0, p + 1)));
                assert forall|q: int| 0 <= q < p + 1 implies normalized_phase(#[trigger] new_phases@[q], ps[q], q as nat, pv) by {
                }
            }
            p = p + 1;
        }
        proof {
            assert(ps.subrange(0, ps.len() as int) =~= ps);
        }
        self.phases = new_phases;
        dropped
    }
}

} // verus!

verus! {

use crate::domain::{priority_text, risk_text};

pub open spec fn scenario_line(n: nat, sc: AcceptanceScenario) -> Seq<char> {
    decimal(n) + ". **Given** "@ + sc.given@ + ", **When** "@ + sc.when@ + ", **Then** "@ + sc.outcome@ + "\n"@
}

/// Numbered acceptance scenarios, from one.
pub open spec fn scenarios_md(scs: Seq<AcceptanceScenario>) -> Seq<char>
    decreases scs.len(),
{
    if scs.len() == 0 {
        Seq::empty()
    } else {
        scenarios_md(scs.drop_last()) + scenario_line(scs.len(), scs.last())
    }
}

pub open spec fn story_md(s: UserStory) -> Seq<char> {
    "### "@ + s.id@ + " - "@ + s.title@ + " (Priority: "@ + priority_text(s.priority) + ")\n\n"@
        + s.description@ + "\n\n"@
        + "**Independent Test**: "@ + s.independent_test@ + "\n\n"@
        + "**Acceptance Scenarios**:\n\n"@
        + scenarios_md(s.acceptance_scenarios@)
        + "\n---\n\n"@
}

pub open spec fn stories_md(ss: Seq<UserStory>) -> Seq<char>
    decreases ss.len(),
{
    if ss.len() == 0 {
        Seq::empty()
    } else {
        stories_md(ss.drop_last()) + story_md(ss.last())
    }
}

pub open spec fn requirement_md(r: Requirement) -> Seq<char> {
    if r.needs_clarification {
        "- **"@ + r.id@ + "**: "@ + r.description@ + " [NEEDS CLARIFICATION: "@ + match r.clarification_note {
            Some(n) => n@,
            None => "Details needed"@,
        } + "]\n"@
    } else {
        "- **"@ + r.id@ + "**: "@ + r.description@ + "\n"@
    }
}

pub open spec fn requirements_md(rs: Seq<Requirement>) -> Seq<char>
    decreases rs.len(),
{
    if rs.len() == 0 {
        Seq::empty()
    } else {
        requirements_md(rs.drop_last()) + requirement_md(rs.last())
    }
}

/// A number padded with zeros to at least three digits (`{:03}`).
pub open spec fn pad3(n: nat) -> Seq<char> {
    if n < 10 {
        "00"@ + decimal(n)
    } else if n < 100 {
        "0"@ + decimal(n)
    } else {
        decimal(n)
    }
}

pub open spec fn criteria_md(cs: Seq<String>) -> Seq<char>
    decreases cs.len(),
{
    if cs.len() == 0 {
        Seq::empty()
    } else {
        criteria_md(cs.drop_last()) + "- **SC-"@ + pad3(cs.len()) + "**: "@ + cs.last()@ + "\n"@
    }
}

/// The Markdown rendering of a specification.
pub open spec fn spec_markdown(a: SpecArtifact) -> Seq<char> {
    "# Feature Specification\n\n"@ + "## User Stories\n\n"@ + stories_md(a.user_stories@)
        + "## Requirements\n\n"@ + requirements_md(a.requirements@)
        + "\n## Success Criteria\n\n"@ + criteria_md(a.success_criteria@)
}

fn push_pad3(s: &mut String, n: u64)
    ensures
        final(s)@ == old(s)@ + pad3(n as nat),
{
    if n < 10 {
        push_str(s, "00");
    } else if n < 100 {
        push_str(s, "0");
    }
    push_decimal(s, n);
    proof {
        assert(final(s)@ =~= old(s)@ + pad3(n as nat));
    }
}

fn push_scenarios(out: &mut String, scs: &Vec<AcceptanceScenario>)
    ensures
        final(out)@ == old(out)@ + scenarios_md(scs@),
{
    let ghost head = out@;
    let mut i: usize = 0;
    proof {
        assert(scs@.subrange(0, 0) =~= Seq::<AcceptanceScenario>::empty());
        assert(out@ =~= head + scenarios_md(scs@.subrange(0, 0)));
    }
    while i < scs.len()
        invariant
            0 <= i <= scs.len(),
            out@ == head + scenarios_md(scs@.subrange(0, i as int)),
        decreases scs.len() - i,
    {
        let ghost b = out@;
        push_decimal(out, i as u64 + 1);
        push_str(out, ". **Given** ");
        push_str(out, scs[i].given.as_str());
        push_str(out, ", **When** ");
        push_str(out, scs[i].when.as_str());
        push_str(out, ", **Then** ");
        push_str(out, scs[i].outcome.as_str());
        push_str(out, "\n");
        proof {
            let q = scs@.subrange(0, i + 1);
            assert(q.drop_last() =~= scs@.subrange(0, i as int));
            assert(q.last() == scs@[i as int]);
            assert(out@ =~= b + scenario_line((i + 1) as nat, scs@[i as int]));
            assert(out@ =~= head + scenarios_md(q));
        }
        i = i + 1;
    }
    proof {
        assert(scs@.subrange(0, scs.len() as int) =~= scs@);
    }
}

fn push_story(out: &mut String, story: &UserStory)
    ensures
        final(out)@ == old(out)@ + story_md(*story),
{
    let ghost o = out@;
    push_str(out, "### ");
    push_str(out, story.id.as_str());
    push_str(out, " - ");
    push_str(out, story.title.as_str());
    push_str(out, " (Priority: ");
    push_str(out, story.priority.as_str());
    push_str(out, ")\n\n");
    push_str(out, story.description.as_str());
    push_str(out, "\n\n");
    push_str(out, "**Independent Test**: ");
    push_str(out, story.independent_test.as_str());
    push_str(out, "\n\n");
    push_str(out, "**Acceptance Scenarios**:\n\n");
    push_scenarios(out, &story.acceptance_scenarios);
    push_str(out, "\n---\n\n");
    proof {
        assert(out@ =~= o + story_md(*story));
    }
}

fn push_requirement(out: &mut String, r: &Requirement)
    ensures
        final(out)@ == old(out)@ + requirement_md(*r),
{
    push_str(out, "- **");
    push_str(out, r.id.as_str());
    push_str(out, "**: ");
    push_str(out, r.description.as_str());
    if r.needs_clarification {
        push_str(out, " [NEEDS CLARIFICATION: ");
        match &r.clarification_note {
            Some(n) => push_str(out, n.as_str()),
            None => push_str(out, "Details needed"),
        }
        push_str(out, "]\n");
    } else {
        push_str(out, "\n");
    }
    proof {
        assert(final(out)@ =~= old(out)@ + requirement_md(*r));
    }
}

impl SpecArtifact {
    /// Markdown rendering of the specification.
    pub fn to_markdown(&self) -> (md: String)
        ensures
            md@ == spec_markdown(*self),
    {
        let mut out = String::new();
        push_str(&mut out, "# Feature Specification\n\n");
        push_str(&mut out, "## User Stories\n\n");
        let ghost h1 = out@;
        let mut i: usize = 0;
        proof {
            assert(self.user_stories@.subrange(0, 0) =~= Seq::<UserStory>::empty());
            assert(out@ =~= h1 + stories_md(self.user_stories@.subrange(0, 0)));
        }
        while i < self.user_stories.len()
            invariant
                0 <= i <= self.user_stories.len(),
                out@ == h1 + stories_md(self.user_stories@.subrange(0, i as int)),
            decreases self.user_stories.len() - i,
        {
            push_story(&mut out, &self.user_stories[i]);
            proof {
                let q = self.user_stories@.subrange(0, i + 1);
                assert(q.drop_last() =~= self.user_stories@.subrange(0, i as int));
                assert(out@ =~= h1 + stories_md(q));
            }
            i = i + 1;
        }
        proof {
            assert(self.user_stories@.subrange(0, self.user_stories.len() as int) =~= self.user_stories@);
        }
        push_str(&mut out, "## Requirements\n\n");
        let ghost h2 = out@;
        let mut j: usize = 0;
        proof {
            assert(self.requirements@.subrange(0, 0) =~= Seq::<Requirement>::empty());
            assert(out@ =~= h2 + requirements_md(self.requirements@.subrange(0, 0)));
        }
        while j < self.requirements.len()
            invariant
                0 <= j <= self.requirements.len(),
                out@ == h2 + requirements_md(self.requirements@.subrange(0, j as int)),
            decreases self.requirements.len() - j,
        {
            push_requirement(&mut out, &self.requirements[j]);
            proof {
                let q = self.requirements@.subrange(0, j + 1);
                assert(q.drop_last() =~= self.requirements@.subrange(0, j as int));
                assert(out@ =~= h2 + requirements_md(q));
            }
            j = j + 1;
        }
        proof {
            assert(self.requirements@.subrange(0, self.requirements.len() as int) =~= self.requirements@);
        }
        push_str(&mut out, "\n## Success Criteria\n\n");
        let ghost h3 = out@;
        let mut k: usize = 0;
        proof {
            assert(self.success_criteria@.subrange(0, 0) =~= Seq::<String>::empty());
            assert(out@ =~= h3 + criteria_md(self.success_criteria@.subrange(0, 0)));
        }
        while k < self.success_criteria.len()
            invariant
                0 <= k <= self.success_criteria.len(),
                out@ == h3 + criteria_md(self.success_criteria@.subrange(0, k as int)),
            decreases self.success_criteria.len() - k,
        {
            let ghost b = out@;
            push_str(&mut out, "- **SC-");
            push_pad3(&mut out, k as u64 + 1);
            push_str(&mut out, "**: ");
            push_str(&mut out, self.success_criteria[k].as_str());
            push_str(&mut out, "\n");
            proof {
                let q = self.success_criteria@.subrange(0, k + 1);
                assert(q.drop_last() =~= self.success_criteria@.subrange(0, k as int));
                assert(q.last() == self.success_criteria@[k as int]);
                assert(out@ =~= h3 + criteria_md(q));
            }
            k = k + 1;
        }
        proof {
            assert(self.success_criteria@.subrange(0, self.success_criteria.len() as int) =~= self.success_criteria@);
            assert(out@ =~= spec_markdown(*self));
        }
        out
    }
}

} // verus!

verus! {

use crate::paths::{join, join_strings};

pub open spec fn opt_or(o: Option<String>, d: Seq<char>) -> Seq<char> {
    match o {
        Some(s) => s@,
        None => d,
    }
}

/// The six principles with their display names, in order.
pub open spec fn principle_names() -> Seq<Seq<char>> {
    seq!["Fact-Based"@, "Code Consistency"@, "DRY"@, "Work Verification"@, "Minimal Scope"@, "Intellectual Honesty"@]
}

pub open spec fn principle_results(c: ConstitutionCheck) -> Seq<PrincipleCheckResult> {
    seq![c.fact_based, c.code_consistency, c.dry_principle, c.work_verification, c.minimal_scope, c.intellectual_honesty]
}

/// `name: note` (or `name: Issue`) for each failed principle, in order.
pub open spec fn constitution_issues(names_: Seq<Seq<char>>, rs: Seq<PrincipleCheckResult>) -> Seq<Seq<char>>
    decreases rs.len(),
{
    if rs.len() == 0 || names_.len() < rs.len() {
        Seq::empty()
    } else {
        let prev = constitution_issues(names_, rs.drop_last());
        let r = rs.last();
        if r.passed {
            prev
        } else {
            prev.push(names_[rs.len() - 1] + ": "@ + opt_or(r.note, "Issue"@))
        }
    }
}

impl ConstitutionCheck {
    /// The principles, by name, in order.
    pub fn checks(&self) -> (r: [(&'static str, &PrincipleCheckResult); 6])
        ensures
            r@.map_values(|e: (&'static str, &PrincipleCheckResult)| e.0@) == principle_names(),
            r@.map_values(|e: (&'static str, &PrincipleCheckResult)| *e.1) == principle_results(*self),
    {
        let r = [
            ("Fact-Based", &self.fact_based),
            ("Code Consistency", &self.code_consistency),
            ("DRY", &self.dry_principle),
            ("Work Verification", &self.work_verification),
            ("Minimal Scope", &self.minimal_scope),
            ("Intellectual Honesty", &self.intellectual_honesty),
        ];
        assert(r@.map_values(|e: (&'static str, &PrincipleCheckResult)| e.0@) =~= principle_names());
        assert(r@.map_values(|e: (&'static str, &PrincipleCheckResult)| *e.1) =~= principle_results(*self));
        r
    }

    /// One line per failed principle: its name and note.
    pub fn issues(&self) -> (v: Vec<String>)
        ensures
            names(v@) == constitution_issues(principle_names(), principle_results(*self)),
    {
        let checks = self.checks();
        let ghost nv = principle_names();
        let ghost rv = principle_results(*self);
        let mut v: Vec<String> = Vec::new();
        let mut i: usize = 0;
        proof {
            assert(rv.subrange(0, 0) =~= Seq::<PrincipleCheckResult>::empty());
            assert(names(v@) =~= Seq::<Seq<char>>::empty());
        }
        while i < 6
            invariant
                0 <= i <= 6,
                checks@.map_values(|e: (&'static str, &PrincipleCheckResult)| e.0@) == nv,
                checks@.map_values(|e: (&'static str, &PrincipleCheckResult)| *e.1) == rv,
                nv.len() == 6,
                rv.len() == 6,
                names(v@) == constitution_issues(nv, rv.subrange(0, i as int)),
            decreases 6 - i,
        {
            let (name, r) = checks[i];
            proof {
                let q = rv.subrange(0, i + 1);
                assert(q.drop_last() =~= rv.subrange(0, i as int));
                assert(name@ == nv[i as int]);
                assert(*r == rv[i as int]);
            }
            if !r.passed {
                let mut line = String::from_str(name);
                push_str(&mut line, ": ");
                match &r.note {
                    Some(n) => push_str(&mut line, n.as_str()),
                    None => push_str(&mut line, "Issue"),
                }
                let ghost v0 = names(v@);
                v.push(line);
                proof {
                    assert(names(v@) =~= v0.push(nv[i as int] + ": "@ + opt_or(r.note, "Issue"@)));
                }
            }
            i = i + 1;
        }
        proof {
            assert(rv.subrange(0, 6) =~= rv);
        }
        v
    }
}

pub open spec fn check_line(name: Seq<char>, r: PrincipleCheckResult) -> Seq<char> {
    "- "@ + (if r.passed { "PASS"@ } else { "FAIL"@ }) + " "@ + name + " "@ + opt_or(r.note, ""@) + "\n"@
}

/// One line per principle, in order, under the plan's display names.
pub open spec fn constitution_md(c: ConstitutionCheck) -> Seq<char> {
    check_line("Fact-Based Development"@, c.fact_based)
        + check_line("Code Consistency"@, c.code_consistency)
        + check_line("DRY Principle"@, c.dry_principle)
        + check_line("Work Verification"@, c.work_verification)
        + check_line("Minimal Scope"@, c.minimal_scope)
        + check_line("Intellectual Honesty"@, c.intellectual_honesty)
}

pub open spec fn factors_md(fs: Seq<RiskFactor>) -> Seq<char>
    decreases fs.len(),
{
    if fs.len() == 0 {
        Seq::empty()
    } else {
        factors_md(fs.drop_last()) + "- **"@ + fs.last().factor@ + "** ("@ + risk_text(fs.last().impact) + "): "@
            + fs.last().mitigation@ + "\n"@
    }
}

pub open spec fn tech_md(tc: TechnicalContext) -> Seq<char> {
    "## Technical Context\n\n"@
        + "- **Language**: "@ + tc.language@ + "\n"@
        + "- **Dependencies**: "@ + join(names(tc.primary_dependencies@), ", "@) + "\n"@
        + match tc.storage {
            Some(s) => "- **Storage**: "@ + s@ + "\n"@,
            None => Seq::empty(),
        }
        + "- **Testing**: "@ + tc.testing@ + "\n"@
        + "- **Platform**: "@ + tc.target_platform@ + "\n\n"@
}

pub open spec fn risk_md(ra: RiskAssessment) -> Seq<char> {
    "\n## Risk Assessment\n\n"@
        + "**Overall Risk**: "@ + risk_text(ra.overall_risk) + "\n\n"@
        + factors_md(ra.factors@)
        + "\n**Rollback Strategy**: "@ + ra.rollback_strategy@ + "\n"@
}

/// The Markdown rendering of a plan.
pub open spec fn plan_markdown(a: PlanArtifact) -> Seq<char> {
    "# Implementation Plan\n\n"@ + "## Summary\n\n"@ + a.summary@ + "\n\n"@
        + tech_md(a.technical_context)
        + "## Constitution Check\n\n"@ + constitution_md(a.constitution_check)
        + risk_md(a.risk_assessment)
}

fn push_check(out: &mut String, name: &str, r: &PrincipleCheckResult)
    ensures
        final(out)@ == old(out)@ + check_line(name@, *r),
{
    push_str(out, "- ");
    if r.passed {
        push_str(out, "PASS");
    } else {
        push_str(out, "FAIL");
    }
    push_str(out, " ");
    push_str(out, name);
    push_str(out, " ");
    match &r.note {
        Some(n) => push_str(out, n.as_str()),
        None => push_str(out, ""),
    }
    push_str(out, "\n");
    proof {
        assert(final(out)@ =~= old(out)@ + check_line(name@, *r));
    }
}

fn push_tech(out: &mut String, tc: &TechnicalContext)
    ensures
        final(out)@ == old(out)@ + tech_md(*tc),
{
    let ghost o = out@;
    push_str(out, "## Technical Context\n\n");
    push_str(out, "- **Language**: ");
    push_str(out, tc.language.as_str());
    push_str(out, "\n");
    push_str(out, "- **Dependencies**: ");
    let deps = join_strings(&tc.primary_dependencies, ", ");
    push_str(out, deps.as_str());
    push_str(out, "\n");
    match &tc.storage {
        Some(s) => {
            push_str(out, "- **Storage**: ");
            push_str(out, s.as_str());
            push_str(out, "\n");
        },
        None => {},
    }
    push_str(out, "- **Testing**: ");
    push_str(out, tc.testing.as_str());
    push_str(out, "\n");
    push_str(out, "- **Platform**: ");
    push_str(out, tc.target_platform.as_str());
    push_str(out, "\n\n");
    proof {
        assert(out@ =~= o + tech_md(*tc));
    }
}

fn push_constitution(out: &mut String, c: &ConstitutionCheck)
    ensures
        final(out)@ == old(out)@ + constitution_md(*c),
{
    let ghost o = out@;
    push_check(out, "Fact-Based Development", &c.fact_based);
    push_check(out, "Code Consistency", &c.code_consistency);
    push_check(out, "DRY Principle", &c.dry_principle);
    push_check(out, "Work Verification", &c.work_verification);
    push_check(out, "Minimal Scope", &c.minimal_scope);
    push_check(out, "Intellectual Honesty", &c.intellectual_honesty);
    proof {
        assert(out@ =~= o + constitution_md(*c));
    }
}

fn push_risk(out: &mut String, ra: &RiskAssessment)
    ensures
        final(out)@ == old(out)@ + risk_md(*ra),
{
    let ghost o = out@;
    push_str(out, "\n## Risk Assessment\n\n");
    push_str(out, "**Overall Risk**: ");
    push_str(out, ra.overall_risk.as_str());
    push_str(out, "\n\n");
    let ghost h = out@;
    let fs = &ra.factors;
    let mut i: usize = 0;
    proof {
        assert(fs@.subrange(0, 0) =~= Seq::<RiskFactor>::empty());
        assert(out@ =~= h + factors_md(fs@.subrange(0, 0)));
    }
    while i < fs.len()
        invariant
            0 <= i <= fs.len(),
            out@ == h + factors_md(fs@.subrange(0, i as int)),
        decreases fs.len() - i,
    {
        push_str(out, "- **");
        push_str(out, fs[i].factor.as_str());
        push_str(out, "** (");
        push_str(out, fs[i].impact.as_str());
        push_str(out, "): ");
        push_str(out, fs[i].mitigation.as_str());
        push_str(out, "\n");
        proof {
            let q = fs@.subrange(0, i + 1);
            assert(q.drop_last() =~= fs@.subrange(0, i as int));
            assert(q.last() == fs@[i as int]);
            assert(out@ =~= h + factors_md(q));
        }
        i = i + 1;
    }
    proof {
        assert(fs@.subrange(0, fs.len() as int) =~= fs@);
    }
    push_str(out, "\n**Rollback Strategy**: ");
    push_str(out, ra.rollback_strategy.as_str());
    push_str(out, "\n");
    proof {
        assert(out@ =~= o + risk_md(*ra));
    }
}

impl PlanArtifact {
    /// Markdown rendering of the plan.
    pub fn to_markdown(&self) -> (md: String)
        ensures
            md@ == plan_markdown(*self),
    {
        let mut out = String::new();
        push_str(&mut out, "# Implementation Plan\n\n");
        push_str(&mut out, "## Summary\n\n");
        push_str(&mut out, self.summary.as_str());
        push_str(&mut out, "\n\n");
        push_tech(&mut out, &self.technical_context);
        push_str(&mut out, "## Constitution Check\n\n");
        push_constitution(&mut out, &self.constitution_check);
        push_risk(&mut out, &self.risk_assessment);
        proof {
            assert(out@ =~= plan_markdown(*self));
        }
        out
    }
}

pub open spec fn task_line(t: PlannedTask) -> Seq<char> {
    "- [ ] "@ + t.id@ + " "@ + (if t.parallel { "[P]"@ } else { ""@ }) + " "@
        + match t.user_story {
            Some(s) => "["@ + s@ + "]"@,
            None => ""@,
        } + " "@ + t.description@ + "\n"@
}

pub open spec fn task_lines(ts: Seq<PlannedTask>) -> Seq<char>
    decreases ts.len(),
{
    if ts.len() == 0 {
        Seq::empty()
    } else {
        task_lines(ts.drop_last()) + task_line(ts.last())
    }
}

pub open spec fn phase_md(p: TaskPhase) -> Seq<char> {
    "## "@ + p.id@ + " - "@ + p.name@ + "\n\n"@ + "**Purpose**: "@ + p.purpose@ + "\n\n"@
        + task_lines(p.tasks@)
        + match p.checkpoint {
            Some(c) => "\n**Checkpoint**: "@ + c@ + "\n"@,
            None => Seq::empty(),
        }
        + "\n---\n\n"@
}

pub open spec fn phases_md(ps: Seq<TaskPhase>) -> Seq<char>
    decreases ps.len(),
{
    if ps.len() == 0 {
        Seq::empty()
    } else {
        phases_md(ps.drop_last()) + phase_md(ps.last())
    }
}

fn push_task_line(out: &mut String, t: &PlannedTask)
    ensures
        final(out)@ == old(out)@ + task_line(*t),
{
    push_str(out, "- [ ] ");
    push_str(out, t.id.as_str());
    push_str(out, " ");
    if t.parallel {
        push_str(out, "[P]");
    } else {
        push_str(out, "");
    }
    push_str(out, " ");
    match &t.user_story {
        Some(s) => {
            push_str(out, "[");
            push_str(out, s.as_str());
            push_str(out, "]");
        },
        None => push_str(out, ""),
    }
    push_str(out, " ");
    push_str(out, t.description.as_str());
    push_str(out, "\n");
    proof {
        assert(final(out)@ =~= old(out)@ + task_line(*t));
    }
}

fn push_phase(out: &mut String, p: &TaskPhase)
    ensures
        final(out)@ == old(out)@ + phase_md(*p),
{
    let ghost o = out@;
    push_str(out, "## ");
    push_str(out, p.id.as_str());
    push_str(out, " - ");
    push_str(out, p.name.as_str());
    push_str(out, "\n\n");
    push_str(out, "**Purpose**: ");
    push_str(out, p.purpose.as_str());
    push_str(out, "\n\n");
    let ghost h = out@;
    let mut i: usize = 0;
    proof {
        assert(p.tasks@.subrange(0, 0) =~= Seq::<PlannedTask>::empty());
        assert(out@ =~= h + task_lines(p.tasks@.subrange(0, 0)));
    }
    while i < p.tasks.len()
        invariant
            0 <= i <= p.tasks.len(),
            out@ == h + task_lines(p.tasks@.subrange(0, i as int)),
        decreases p.tasks.len() - i,
    {
        push_task_line(out, &p.tasks[i]);
        proof {
            let q = p.tasks@.subrange(0, i + 1);
            assert(q.drop_last() =~= p.tasks@.subrange(0, i as int));
            assert(out@ =~= h + task_lines(q));
        }
        i = i + 1;
    }
    proof {
        assert(p.tasks@.subrange(0, p.tasks.len() as int) =~= p.tasks@);
    }
    match &p.checkpoint {
        Some(c) => {
            push_str(out, "\n**Checkpoint**: ");
            push_str(out, c.as_str());
            push_str(out, "\n");
        },
        None => {},
    }
    push_str(out, "\n---\n\n");
    proof {
        assert(out@ =~= o + phase_md(*p));
    }
}

/// The Markdown rendering of a task breakdown.
pub open spec fn tasks_markdown(a: TasksArtifact) -> Seq<char> {
    "# Tasks\n\n"@ + phases_md(a.phases@)
}

impl TasksArtifact {
    /// Markdown rendering of the tasks, phase by phase.
    pub fn to_markdown(&self) -> (md: String)
        ensures
            md@ == tasks_markdown(*self),
    {
        let mut out = String::new();
        push_str(&mut out, "# Tasks\n\n");
        let ghost h = out@;
        let mut i: usize = 0;
        proof {
            assert(self.phases@.subrange(0, 0) =~= Seq::<TaskPhase>::empty());
            assert(out@ =~= h + phases_md(self.phases@.subrange(0, 0)));
        }
        while i < self.phases.len()
            invariant
                0 <= i <= self.phases.len(),
                out@ == h + phases_md(self.phases@.subrange(0, i as int)),
            decreases self.phases.len() - i,
        {
            push_phase(&mut out, &self.phases[i]);
            proof {
                let q = self.phases@.subrange(0, i + 1);
                assert(q.drop_last() =~= self.phases@.subrange(0, i as int));
                assert(out@ =~= h + phases_md(q));
            }
            i = i + 1;
        }
        proof {
            assert(self.phases@.subrange(0, self.phases.len() as int) =~= self.phases@);
        }
        out
    }
}

} // verus!

verus! {

/// `l` is the new id of some task of `phases`.
pub open spec fn labels_a_task(phases: Seq<TaskPhase>, l: Seq<char>) -> bool {
    exists|p: nat, t: nat| p < phases.len() && t < phases[p as int].tasks@.len() && #[trigger] task_label(p, t) == l
}

proof fn lemma_phase_pairs_shape(ts: Seq<PlannedTask>, p: nat)
    ensures
        phase_pairs(ts, p).len() == ts.len(),
        forall|i: int| 0 <= i < ts.len() ==> #[trigger] phase_pairs(ts, p)[i] == (ts[i].id@, task_label(p, i as nat)),
    decreases ts.len(),
{
    if ts.len() > 0 {
        lemma_phase_pairs_shape(ts.drop_last(), p);
    }
}

/// Every new id handed out is the label of a task.
proof fn lemma_id_pairs_label_tasks(phases: Seq<TaskPhase>)
    ensures
        forall|i: int| 0 <= i < id_pairs(phases).len() ==> labels_a_task(phases, #[trigger] id_pairs(phases)[i].1),
    decreases phases.len(),
{
    if phases.len() > 0 {
        let init = phases.drop_last();
        let n = (phases.len() - 1) as nat;
        let last = phases.last().tasks@;
        lemma_id_pairs_label_tasks(init);
        lemma_phase_pairs_shape(last, n);
        let pre = id_pairs(init);
        assert forall|i: int| 0 <= i < id_pairs(phases).len() implies labels_a_task(
            phases,
            #[trigger] id_pairs(phases)[i].1,
        ) by {
            if i < pre.len() {
                assert(id_pairs(phases)[i] == pre[i]);
                assert(labels_a_task(init, pre[i].1));
                let (p, t) = choose|p: nat, t: nat|
                    p < init.len() && t < init[p as int].tasks@.len() && #[trigger] task_label(p, t) == pre[i].1;
                assert(init[p as int] == phases[p as int]);
                assert(task_label(p, t) == id_pairs(phases)[i].1);
            } else {
                let k = i - pre.len();
                assert(id_pairs(phases)[i] == phase_pairs(last, n)[k]);
                assert(task_label(n, k as nat) == id_pairs(phases)[i].1);
            }
        }
    }
}

/// `l` is the new id of one of `pairs`.
spec fn gives_id(pairs: Seq<(Seq<char>, Seq<char>)>, l: Seq<char>) -> bool {
    exists|i: int| 0 <= i < pairs.len() && #[trigger] pairs[i].1 == l
}

/// A name that resolves, resolves to the new id of some pair.
proof fn lemma_renamed_from_pairs(pairs: Seq<(Seq<char>, Seq<char>)>, k: Seq<char>)
    ensures
        renamed(pairs, k) is Some ==> gives_id(pairs, renamed(pairs, k)->Some_0),
    decreases pairs.len(),
{
    if pairs.len() > 0 {
        lemma_renamed_from_pairs(pairs.drop_last(), k);
        if pairs.last().0 != k && renamed(pairs, k) is Some {
            let i = choose|i: int| 0 <= i < pairs.drop_last().len() && #[trigger] pairs.drop_last()[i].1 == renamed(pairs, k)->Some_0;
            assert(pairs[i] == pairs.drop_last()[i]);
        }
        if pairs.last().0 == k {
            assert(pairs[pairs.len() - 1].1 == renamed(pairs, k)->Some_0);
        }
    }
}

/// Every kept dependency is the new id of some pair.
proof fn lemma_kept_from_pairs(pairs: Seq<(Seq<char>, Seq<char>)>, deps: Seq<Seq<char>>)
    ensures
        forall|j: int| 0 <= j < kept_deps(pairs, deps).len() ==> gives_id(pairs, #[trigger] kept_deps(pairs, deps)[j]),
    decreases deps.len(),
{
    if deps.len() > 0 {
        lemma_kept_from_pairs(pairs, deps.drop_last());
        lemma_renamed_from_pairs(pairs, deps.last());
        let pre = kept_deps(pairs, deps.drop_last());
        assert forall|j: int| 0 <= j < kept_deps(pairs, deps).len() implies gives_id(
            pairs,
            #[trigger] kept_deps(pairs, deps)[j],
        ) by {
            if j < pre.len() {
                assert(kept_deps(pairs, deps)[j] == pre[j]);
            } else {
                assert(kept_deps(pairs, deps)[j] == renamed(pairs, deps.last())->Some_0);
            }
        }
    }
}

/// After task ids are normalised, every dependency that is left names a
/// task of the breakdown by its new id.
pub proof fn lemma_normalized_deps_resolve(old_phases: Seq<TaskPhase>, new_phases: Seq<TaskPhase>)
    requires
        new_phases.len() == old_phases.len(),
        forall|p: int| 0 <= p < old_phases.len() ==> normalized_phase(
            #[trigger] new_phases[p],
            old_phases[p],
            p as nat,
            id_pairs(old_phases),
        ),
    ensures
        forall|p: int, t: int, j: int|
            0 <= p < new_phases.len() && 0 <= t < new_phases[p].tasks@.len() && 0 <= j
                < new_phases[p].tasks@[t].dependencies@.len() ==> exists|p2: int, t2: int|
                0 <= p2 < new_phases.len() && 0 <= t2 < new_phases[p2].tasks@.len()
                    && (#[trigger] new_phases[p2].tasks@[t2]).id@ == (#[trigger] new_phases[p].tasks@[t].dependencies@[j])@,
{
    let pairs = id_pairs(old_phases);
    lemma_id_pairs_label_tasks(old_phases);
    assert forall|p: int, t: int, j: int|
        0 <= p < new_phases.len() && 0 <= t < new_phases[p].tasks@.len() && 0 <= j
            < new_phases[p].tasks@[t].dependencies@.len() implies exists|p2: int, t2: int|
            0 <= p2 < new_phases.len() && 0 <= t2 < new_phases[p2].tasks@.len()
                && (#[trigger] new_phases[p2].tasks@[t2]).id@ == (#[trigger] new_phases[p].tasks@[t].dependencies@[j])@ by {
        let np = new_phases[p];
        assert(normalized_phase(np, old_phases[p], p as nat, pairs));
        let nt = np.tasks@[t];
        assert(normalized_task(nt, old_phases[p].tasks@[t], task_label(p as nat, t as nat), pairs));
        let olddeps = names(old_phases[p].tasks@[t].dependencies@);
        lemma_kept_from_pairs(pairs, olddeps);
        let d = nt.dependencies@[j]@;
        assert(names(nt.dependencies@)[j] == d);
        assert(kept_deps(pairs, olddeps)[j] == d);
        assert(gives_id(pairs, kept_deps(pairs, olddeps)[j]));
        let i = choose|i: int| 0 <= i < pairs.len() && #[trigger] pairs[i].1 == kept_deps(pairs, olddeps)[j];
        assert(labels_a_task(old_phases, pairs[i].1));
        let (p2, t2) = choose|p2: nat, t2: nat|
            p2 < old_phases.len() && t2 < old_phases[p2 as int].tasks@.len() && #[trigger] task_label(p2, t2) == pairs[i].1;
        assert(normalized_phase(new_phases[p2 as int], old_phases[p2 as int], p2, pairs));
        assert(normalized_task(
            new_phases[p2 as int].tasks@[t2 as int],
            old_phases[p2 as int].tasks@[t2 as int],
            task_label(p2, t2 as nat),
            pairs,
        ));
        assert(new_phases[p2 as int].tasks@[t2 as int].id@ == d);
    }
}

} // verus!

verus! {

/// Different positions get different labels.
proof fn lemma_task_label_injective(p: nat, t: nat, p2: nat, t2: nat)
    ensures
        task_label(p, t) == task_label(p2, t2) ==> p == p2 && t == t2,
{
    reveal_strlit("P");
    reveal_strlit("T");
    let a = decimal(p + 1);
    let b = decimal(t + 1);
    let a2 = decimal(p2 + 1);
    let b2 = decimal(t2 + 1);
    lemma_decimal_digits(p + 1);
    lemma_decimal_digits(p2 + 1);
    let l = task_label(p, t);
    let l2 = task_label(p2, t2);
    assert(l =~= seq!['P'] + a + seq!['T'] + b);
    assert(l2 =~= seq!['P'] + a2 + seq!['T'] + b2);
    if l == l2 {
        if a.len() < a2.len() {
            assert(l[1 + a.len() as int] == 'T');
            assert(l2[1 + a.len() as int] == a2[a.len() as int]);
        } else if a2.len() < a.len() {
            assert(l2[1 + a2.len() as int] == 'T');
            assert(l[1 + a2.len() as int] == a[a2.len() as int]);
        } else {
            assert(l.subrange(1, 1 + a.len() as int) =~= a);
            assert(l2.subrange(1, 1 + a.len() as int) =~= a2);
            assert(l.subrange(2 + a.len() as int, l.len() as int) =~= b);
            assert(l2.subrange(2 + a.len() as int, l2.len() as int) =~= b2);
            lemma_decimal_injective(p + 1, p2 + 1);
            lemma_decimal_injective(t + 1, t2 + 1);
        }
    }
}

/// After task ids are normalised, no two tasks share an id.
pub proof fn lemma_normalized_ids_distinct(old_phases: Seq<TaskPhase>, new_phases: Seq<TaskPhase>)
    requires
        new_phases.len() == old_phases.len(),
        forall|p: int| 0 <= p < old_phases.len() ==> normalized_phase(
            #[trigger] new_phases[p],
            old_phases[p],
            p as nat,
            id_pairs(old_phases),
        ),
    ensures
        forall|p: int, t: int, p2: int, t2: int|
            0 <= p < new_phases.len() && 0 <= t < new_phases[p].tasks@.len() && 0 <= p2 < new_phases.len() && 0 <= t2
                < new_phases[p2].tasks@.len() && (p != p2 || t != t2) ==> (#[trigger] new_phases[p].tasks@[t]).id@
                != (#[trigger] new_phases[p2].tasks@[t2]).id@,
{
    let pairs = id_pairs(old_phases);
    assert forall|p: int, t: int, p2: int, t2: int|
        0 <= p < new_phases.len() && 0 <= t < new_phases[p].tasks@.len() && 0 <= p2 < new_phases.len() && 0 <= t2
            < new_phases[p2].tasks@.len() && (p != p2 || t != t2) implies (#[trigger] new_phases[p].tasks@[t]).id@
            != (#[trigger] new_phases[p2].tasks@[t2]).id@ by {
        assert(normalized_phase(new_phases[p], old_phases[p], p as nat, pairs));
        assert(normalized_phase(new_phases[p2], old_phases[p2], p2 as nat, pairs));
        assert(normalized_task(new_phases[p].tasks@[t], old_phases[p].tasks@[t], task_label(p as nat, t as nat), pairs));
        assert(normalized_task(
            new_phases[p2].tasks@[t2],
            old_phases[p2].tasks@[t2],
            task_label(p2 as nat, t2 as nat),
            pairs,
        ));
        lemma_task_label_injective(p as nat, t as nat, p2 as nat, t2 as nat);
    }
}

} // verus!

verus! {

/// How many dependencies the tasks `ts` declare in all.
pub open spec fn deps_in_phase(ts: Seq<PlannedTask>) -> nat
    decreases ts.len(),
{
    if ts.len() == 0 {
        0
    } else {
        deps_in_phase(ts.drop_last()) + ts.last().dependencies@.len()
    }
}

/// How many dependencies all tasks of `phases` declare.
pub open spec fn deps_total(phases: Seq<TaskPhase>) -> nat
    decreases phases.len(),
{
    if phases.len() == 0 {
        0
    } else {
        deps_total(phases.drop_last()) + deps_in_phase(phases.last().tasks@)
    }
}

/// Each of a task's dependencies is either kept (renamed) or dropped.
pub proof fn lemma_kept_plus_dropped(pairs: Seq<(Seq<char>, Seq<char>)>, id: Seq<char>, deps: Seq<Seq<char>>)
    ensures
        kept_deps(pairs, deps).len() + dropped_deps(pairs, id, deps).len() == deps.len(),
    decreases deps.len(),
{
    if deps.len() > 0 {
        lemma_kept_plus_dropped(pairs, id, deps.drop_last());
    }
}

proof fn lemma_phase_deps_accounted(
    new_ts: Seq<PlannedTask>,
    old_ts: Seq<PlannedTask>,
    p: nat,
    pairs: Seq<(Seq<char>, Seq<char>)>,
)
    requires
        new_ts.len() == old_ts.len(),
        forall|t: int| 0 <= t < old_ts.len() ==> normalized_task(
            #[trigger] new_ts[t],
            old_ts[t],
            task_label(p, t as nat),
            pairs,
        ),
    ensures
        deps_in_phase(new_ts) + dropped_in_phase(pairs, old_ts, p).len() == deps_in_phase(old_ts),
    decreases old_ts.len(),
{
    if old_ts.len() > 0 {
        let n = old_ts.len() - 1;
        assert forall|t: int| 0 <= t < old_ts.drop_last().len() implies normalized_task(
            #[trigger] new_ts.drop_last()[t],
            old_ts.drop_last()[t],
            task_label(p, t as nat),
            pairs,
        ) by {
            assert(normalized_task(new_ts[t], old_ts[t], task_label(p, t as nat), pairs));
        }
        lemma_phase_deps_accounted(new_ts.drop_last(), old_ts.drop_last(), p, pairs);
        assert(normalized_task(new_ts[n], old_ts[n], task_label(p, n as nat), pairs));
        let olddeps = names(old_ts.last().dependencies@);
        lemma_kept_plus_dropped(pairs, task_label(p, n as nat), olddeps);
        assert(names(new_ts.last().dependencies@).len() == new_ts.last().dependencies@.len());
    }
}

/// Normalising task ids loses no dependency: the dependencies the tasks
/// keep and those returned as dropped together number exactly the
/// dependencies declared before.
pub proof fn lemma_normalized_deps_accounted(old_phases: Seq<TaskPhase>, new_phases: Seq<TaskPhase>)
    requires
        new_phases.len() == old_phases.len(),
        forall|p: int| 0 <= p < old_phases.len() ==> normalized_phase(
            #[trigger] new_phases[p],
            old_phases[p],
            p as nat,
            id_pairs(old_phases),
        ),
    ensures
        deps_total(new_phases) + dropped_all(id_pairs(old_phases), old_phases).len() == deps_total(old_phases),
{
    lemma_deps_accounted_with(old_phases, new_phases, id_pairs(old_phases));
}

proof fn lemma_deps_accounted_with(
    old_phases: Seq<TaskPhase>,
    new_phases: Seq<TaskPhase>,
    pairs: Seq<(Seq<char>, Seq<char>)>,
)
    requires
        new_phases.len() == old_phases.len(),
        forall|p: int| 0 <= p < old_phases.len() ==> normalized_phase(
            #[trigger] new_phases[p],
            old_phases[p],
            p as nat,
            pairs,
        ),
    ensures
        deps_total(new_phases) + dropped_all(pairs, old_phases).len() == deps_total(old_phases),
    decreases old_phases.len(),
{
    if old_phases.len() > 0 {
        let n = old_phases.len() - 1;
        assert forall|p: int| 0 <= p < old_phases.drop_last().len() implies normalized_phase(
            #[trigger] new_phases.drop_last()[p],
            old_phases.drop_last()[p],
            p as nat,
            pairs,
        ) by {
            assert(normalized_phase(new_phases[p], old_phases[p], p as nat, pairs));
        }
        lemma_deps_accounted_with(old_phases.drop_last(), new_phases.drop_last(), pairs);
        let np = new_phases[n];
        let op = old_phases[n];
        assert(normalized_phase(np, op, n as nat, pairs));
        assert forall|t: int| 0 <= t < op.tasks@.len() implies normalized_task(
            #[trigger] np.tasks@[t],
            op.tasks@[t],
            task_label(n as nat, t as nat),
            pairs,
        ) by {
        }
        lemma_phase_deps_accounted(np.tasks@, op.tasks@, n as nat, pairs);
    }
}

} // verus!

verus! {

/// Every task's id is the label of its position.
pub open spec fn ids_are_labels(phases: Seq<TaskPhase>) -> bool {
    forall|p: int, t: int|
        0 <= p < phases.len() && 0 <= t < phases[p].tasks@.len() ==> (#[trigger] phases[p].tasks@[t]).id@ == task_label(
            p as nat,
            t as nat,
        )
}

/// Two tasks agree in every field.
pub open spec fn same_task(a: PlannedTask, b: PlannedTask) -> bool {
    &&& a.id@ == b.id@
    &&& a.description@ == b.description@
    &&& opt_views(a.user_story) == opt_views(b.user_story)
    &&& a.parallel == b.parallel
    &&& names(a.dependencies@) == names(b.dependencies@)
    &&& names(a.affected_files@) == names(b.affected_files@)
    &&& names(a.test_patterns@) == names(b.test_patterns@)
}

/// Two phases agree in every field, task by task.
pub open spec fn same_phase(a: TaskPhase, b: TaskPhase) -> bool {
    &&& a.id@ == b.id@
    &&& a.name@ == b.name@
    &&& a.purpose@ == b.purpose@
    &&& opt_views(a.checkpoint) == opt_views(b.checkpoint)
    &&& a.tasks@.len() == b.tasks@.len()
    &&& forall|t: int| 0 <= t < a.tasks@.len() ==> same_task(#[trigger] a.tasks@[t], b.tasks@[t])
}

proof fn lemma_id_pairs_fixed(phases: Seq<TaskPhase>)
    requires
        ids_are_labels(phases),
    ensures
        forall|i: int| 0 <= i < id_pairs(phases).len() ==> (#[trigger] id_pairs(phases)[i]).0 == id_pairs(phases)[i].1,
    decreases phases.len(),
{
    if phases.len() > 0 {
        let init = phases.drop_last();
        let n = (phases.len() - 1) as nat;
        let last = phases.last().tasks@;
        assert forall|p: int, t: int| 0 <= p < init.len() && 0 <= t < init[p].tasks@.len() implies (
        #[trigger] init[p].tasks@[t]).id@ == task_label(p as nat, t as nat) by {
            assert(init[p] == phases[p]);
            assert(phases[p].tasks@[t].id@ == task_label(p as nat, t as nat));
        }
        lemma_id_pairs_fixed(init);
        lemma_phase_pairs_shape(last, n);
        let pre = id_pairs(init);
        assert forall|i: int| 0 <= i < id_pairs(phases).len() implies (#[trigger] id_pairs(phases)[i]).0
            == id_pairs(phases)[i].1 by {
            if i < pre.len() {
                assert(id_pairs(phases)[i] == pre[i]);
            } else {
                let k = i - pre.len();
                assert(id_pairs(phases)[i] == phase_pairs(last, n)[k]);
                assert(phases[n as int].tasks@[k].id@ == task_label(n, k as nat));
            }
        }
    }
}

proof fn lemma_id_pairs_has(phases: Seq<TaskPhase>, p: int, t: int)
    requires
        0 <= p < phases.len(),
        0 <= t < phases[p].tasks@.len(),
    ensures
        exists|i: int| 0 <= i < id_pairs(phases).len() && (#[trigger] id_pairs(phases)[i]).0 == phases[p].tasks@[t].id@,
    decreases phases.len(),
{
    let init = phases.drop_last();
    let n = (phases.len() - 1) as nat;
    let last = phases.last().tasks@;
    let pre = id_pairs(init);
    lemma_phase_pairs_shape(last, n);
    if p == n {
        let i = pre.len() + t;
        assert(id_pairs(phases)[i] == phase_pairs(last, n)[t]);
    } else {
        assert(init[p] == phases[p]);
        lemma_id_pairs_has(init, p, t);
        let i = choose|i: int| 0 <= i < pre.len() && (#[trigger] pre[i]).0 == init[p].tasks@[t].id@;
        assert(id_pairs(phases)[i] == pre[i]);
    }
}

proof fn lemma_renamed_fixed(pairs: Seq<(Seq<char>, Seq<char>)>, k: Seq<char>)
    requires
        forall|i: int| 0 <= i < pairs.len() ==> (#[trigger] pairs[i]).0 == pairs[i].1,
    ensures
        renamed(pairs, k) is Some ==> renamed(pairs, k) == Some(k),
        (exists|i: int| 0 <= i < pairs.len() && (#[trigger] pairs[i]).0 == k) ==> renamed(pairs, k) is Some,
    decreases pairs.len(),
{
    if pairs.len() > 0 {
        let init = pairs.drop_last();
        assert forall|i: int| 0 <= i < init.len() implies (#[trigger] init[i]).0 == init[i].1 by {
            assert(init[i] == pairs[i]);
        }
        lemma_renamed_fixed(init, k);
        assert(pairs.last() == pairs[pairs.len() - 1]);
        if pairs.last().0 != k {
            if exists|i: int| 0 <= i < pairs.len() && (#[trigger] pairs[i]).0 == k {
                let i = choose|i: int| 0 <= i < pairs.len() && (#[trigger] pairs[i]).0 == k;
                assert(i < pairs.len() - 1);
                assert(init[i] == pairs[i]);
            }
        }
    }
}

proof fn lemma_all_kept(pairs: Seq<(Seq<char>, Seq<char>)>, id: Seq<char>, deps: Seq<Seq<char>>)
    requires
        forall|i: int| 0 <= i < pairs.len() ==> (#[trigger] pairs[i]).0 == pairs[i].1,
        forall|j: int| 0 <= j < deps.len() ==> (#[trigger] renamed(pairs, deps[j])) is Some,
    ensures
        kept_deps(pairs, deps) == deps,
        dropped_deps(pairs, id, deps).len() == 0,
    decreases deps.len(),
{
    if deps.len() > 0 {
        let init = deps.drop_last();
        assert forall|j: int| 0 <= j < init.len() implies (#[trigger] renamed(pairs, init[j])) is Some by {
            assert(init[j] == deps[j]);
        }
        lemma_all_kept(pairs, id, init);
        assert(deps.last() == deps[deps.len() - 1]);
        lemma_renamed_fixed(pairs, deps.last());
        assert(kept_deps(pairs, deps) =~= deps);
    }
}

proof fn lemma_none_dropped(pairs: Seq<(Seq<char>, Seq<char>)>, phases: Seq<TaskPhase>)
    requires
        forall|p: int, t: int|
            0 <= p < phases.len() && 0 <= t < phases[p].tasks@.len() ==> dropped_deps(
                pairs,
                task_label(p as nat, t as nat),
                names((#[trigger] phases[p].tasks@[t]).dependencies@),
            ).len() == 0,
    ensures
        dropped_all(pairs, phases).len() == 0,
    decreases phases.len(),
{
    if phases.len() > 0 {
        let init = phases.drop_last();
        let n = phases.len() - 1;
        assert forall|p: int, t: int| 0 <= p < init.len() && 0 <= t < init[p].tasks@.len() implies dropped_deps(
            pairs,
            task_label(p as nat, t as nat),
            names((#[trigger] init[p].tasks@[t]).dependencies@),
        ).len() == 0 by {
            assert(init[p] == phases[p]);
            assert(phases[p].tasks@[t] == init[p].tasks@[t]);
        }
        lemma_none_dropped(pairs, init);
        lemma_none_dropped_in_phase(pairs, phases[n].tasks@, n as nat);
    }
}

proof fn lemma_none_dropped_in_phase(pairs: Seq<(Seq<char>, Seq<char>)>, ts: Seq<PlannedTask>, p: nat)
    requires
        forall|t: int| 0 <= t < ts.len() ==> dropped_deps(
            pairs,
            task_label(p, t as nat),
            names((#[trigger] ts[t]).dependencies@),
        ).len() == 0,
    ensures
        dropped_in_phase(pairs, ts, p).len() == 0,
    decreases ts.len(),
{
    if ts.len() > 0 {
        let init = ts.drop_last();
        assert forall|t: int| 0 <= t < init.len() implies dropped_deps(
            pairs,
            task_label(p, t as nat),
            names((#[trigger] init[t]).dependencies@),
        ).len() == 0 by {
            assert(init[t] == ts[t]);
        }
        lemma_none_dropped_in_phase(pairs, init, p);
        assert(ts.last() == ts[ts.len() - 1]);
    }
}

/// Normalising task ids twice changes nothing: once the ids are
/// normalised, a second pass drops no dependency, and every phase and task
/// comes out as it went in.
pub proof fn lemma_normalize_twice(orig: Seq<TaskPhase>, once: Seq<TaskPhase>, twice: Seq<TaskPhase>)
    requires
        once.len() == orig.len(),
        forall|p: int| 0 <= p < orig.len() ==> normalized_phase(#[trigger] once[p], orig[p], p as nat, id_pairs(orig)),
        twice.len() == once.len(),
        forall|p: int| 0 <= p < once.len() ==> normalized_phase(#[trigger] twice[p], once[p], p as nat, id_pairs(once)),
    ensures
        dropped_all(id_pairs(once), once).len() == 0,
        forall|p: int| 0 <= p < once.len() ==> same_phase(#[trigger] twice[p], once[p]),
{
    let pairs = id_pairs(once);
    assert forall|p: int, t: int| 0 <= p < once.len() && 0 <= t < once[p].tasks@.len() implies (
    #[trigger] once[p].tasks@[t]).id@ == task_label(p as nat, t as nat) by {
        assert(normalized_phase(once[p], orig[p], p as nat, id_pairs(orig)));
        assert(normalized_task(once[p].tasks@[t], orig[p].tasks@[t], task_label(p as nat, t as nat), id_pairs(orig)));
    }
    lemma_id_pairs_fixed(once);
    lemma_normalized_deps_resolve(orig, once);
    assert forall|p: int, t: int| 0 <= p < once.len() && 0 <= t < once[p].tasks@.len() implies {
        &&& kept_deps(pairs, names((#[trigger] once[p].tasks@[t]).dependencies@)) == names(once[p].tasks@[t].dependencies@)
        &&& dropped_deps(pairs, task_label(p as nat, t as nat), names(once[p].tasks@[t].dependencies@)).len() == 0
    } by {
        let ds = names(once[p].tasks@[t].dependencies@);
        assert forall|j: int| 0 <= j < ds.len() implies (#[trigger] renamed(pairs, ds[j])) is Some by {
            assert(ds[j] == once[p].tasks@[t].dependencies@[j]@);
            let (p2, t2) = choose|p2: int, t2: int|
                0 <= p2 < once.len() && 0 <= t2 < once[p2].tasks@.len() && (#[trigger] once[p2].tasks@[t2]).id@
                    == (#[trigger] once[p].tasks@[t].dependencies@[j])@;
            lemma_id_pairs_has(once, p2, t2);
            let i = choose|i: int| 0 <= i < pairs.len() && (#[trigger] pairs[i]).0 == once[p2].tasks@[t2].id@;
            assert(pairs[i].0 == ds[j]);
            lemma_renamed_fixed(pairs, ds[j]);
        }
        lemma_all_kept(pairs, task_label(p as nat, t as nat), ds);
    }
    lemma_none_dropped(pairs, once);
    assert forall|p: int| 0 <= p < once.len() implies same_phase(#[trigger] twice[p], once[p]) by {
        assert(normalized_phase(twice[p], once[p], p as nat, pairs));
        assert forall|t: int| 0 <= t < twice[p].tasks@.len() implies same_task(#[trigger] twice[p].tasks@[t], once[p].tasks@[t]) by {
            assert(normalized_task(twice[p].tasks@[t], once[p].tasks@[t], task_label(p as nat, t as nat), pairs));
            assert(once[p].tasks@[t].id@ == task_label(p as nat, t as nat));
            assert(kept_deps(pairs, names(once[p].tasks@[t].dependencies@)) == names(once[p].tasks@[t].dependencies@));
        }
    }
}

} // verus!

