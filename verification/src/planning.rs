//! The planning pipeline's components: the specification agent, the task
//! decomposer, the orchestrator that owns them, and the chunked planner
//! that splits large missions into phases.

use vstd::prelude::*;
use crate::agent::{configured_agent, AgentConfig, PilotError, PlanAgent, PlanAgentView};
use crate::artifacts::{
    all_tasks, dropped_views, lemma_all_tasks_step, AcceptanceScenario, Clarification, ClarificationOption, DroppedDependency,
    PlanArtifact, PlannedTask, Requirement, SpecArtifact, TaskPhase, TasksArtifact, UserStory,
};
use crate::domain::{escalated, isolation_rank, lemma_escalate_monotone, IsolationMode, Priority, RiskLevel};
use crate::evidence::{ModuleTestMapping, TestStructure};
use crate::graph::names;
use crate::mission::{AgentType, Mission, Phase, Task, TaskStatus};
use crate::names::clone_strings;
use crate::paths::{join, join_strings};
use crate::text::{chars_of, push_str, string_from_chars};
use crate::validation::{lemma_all_tasks_grow, task_exists, PlanValidator};

verus! {

broadcast use vstd::string::group_string_axioms;

/// Bounds on how many tasks a user story should get, and how often
/// decomposition is retried.
#[derive(Debug, Clone, Copy)]
pub struct TaskDecompositionConfig {
    pub min_tasks_per_story: usize,
    pub max_tasks_per_story: usize,
    pub require_affected_files: bool,
    pub max_retry_attempts: u32,
}

impl Default for TaskDecompositionConfig {
    fn default() -> (c: Self)
        ensures
            c.min_tasks_per_story == 2,
            c.max_tasks_per_story == 10,
            c.require_affected_files,
            c.max_retry_attempts == 3,
    {
        TaskDecompositionConfig {
            min_tasks_per_story: 2,
            max_tasks_per_story: 10,
            require_affected_files: true,
            max_retry_attempts: 3,
        }
    }
}

/// Bounds on the outline of a chunked plan.
#[derive(Debug, Clone, Copy)]
pub struct ChunkedPlanningConfig {
    pub min_phases: usize,
    pub max_phases: usize,
    pub max_stories_per_phase: usize,
}

/// Writes specifications from a description and the evidence.
pub struct SpecificationAgent {
    executor: PlanAgent,
}

/// The first `n` characters of `s`.
pub open spec fn first_chars(s: Seq<char>, n: nat) -> Seq<char> {
    if s.len() <= n {
        s
    } else {
        s.take(n as int)
    }
}

fn take_chars(s: &str, n: usize) -> (r: String)
    ensures
        r@ == first_chars(s@, n as nat),
{
    let cs = chars_of(s);
    if cs.len() <= n {
        return string_from_chars(&cs);
    }
    let mut v: Vec<char> = Vec::new();
    let mut i: usize = 0;
    while i < n
        invariant
            0 <= i <= n < cs.len(),
            v@ == cs@.take(i as int),
        decreases n - i,
    {
        v.push(cs[i]);
        proof {
            assert(v@ =~= cs@.take(i + 1));
        }
        i = i + 1;
    }
    string_from_chars(&v)
}

/// The specification used when the model could not write one: a single
/// story and requirement restating the description, and a clarification
/// asking for details.
pub open spec fn is_default_spec(s: SpecArtifact, description: Seq<char>) -> bool {
    &&& s.user_stories@.len() == 1
    &&& s.user_stories@[0].id@ == "US1"@
    &&& s.user_stories@[0].title@ == first_chars(description, 50)
    &&& s.user_stories@[0].priority == Priority::P1
    &&& s.user_stories@[0].description@ == description
    &&& s.user_stories@[0].acceptance_scenarios@.len() == 1
    &&& s.user_stories@[0].acceptance_scenarios@[0].given@ == "the system is ready"@
    &&& s.user_stories@[0].acceptance_scenarios@[0].when@ == "the feature is used"@
    &&& s.user_stories@[0].acceptance_scenarios@[0].outcome@ == "the expected behavior occurs"@
    &&& s.user_stories@[0].independent_test@ == "Manual verification of the feature"@
    &&& s.requirements@.len() == 1
    &&& s.requirements@[0].id@ == "FR-001"@
    &&& s.requirements@[0].description@ == "System MUST "@ + description
    &&& s.requirements@[0].needs_clarification
    &&& s.requirements@[0].clarification_note matches Some(n) && n@ == "Details need to be specified"@
    &&& s.clarifications@.len() == 1
    &&& s.clarifications@[0].id@ == "C1"@
    &&& s.clarifications@[0].question@ == "Please provide more details about the requirements"@
    &&& s.clarifications@[0].context@ == "The initial description may be incomplete"@
    &&& s.clarifications@[0].options@.len() == 2
    &&& s.clarifications@[0].options@[0].label@ == "Minimal implementation"@
    &&& s.clarifications@[0].options@[0].description@ == "Basic functionality only"@
    &&& s.clarifications@[0].options@[0].recommended
    &&& s.clarifications@[0].options@[1].label@ == "Full implementation"@
    &&& s.clarifications@[0].options@[1].description@ == "Complete feature set"@
    &&& !s.clarifications@[0].options@[1].recommended
    &&& !s.clarifications@[0].resolved
    &&& s.clarifications@[0].answer is None
    &&& s.success_criteria@.len() == 1
    &&& s.success_criteria@[0]@ == "Feature works as expected"@
}

/// The index of the first clarification with id `id`.
pub open spec fn clarification_index(cs: Seq<Clarification>, id: Seq<char>) -> Option<int>
    decreases cs.len(),
{
    if cs.len() == 0 {
        None
    } else {
        match clarification_index(cs.drop_last(), id) {
            Some(i) => Some(i),
            None => if cs.last().id@ == id {
                Some(cs.len() - 1)
            } else {
                None
            },
        }
    }
}

proof fn lemma_clarification_index(cs: Seq<Clarification>, id: Seq<char>)
    ensures
        match clarification_index(cs, id) {
            Some(i) => 0 <= i < cs.len() && cs[i].id@ == id && forall|j: int| 0 <= j < i ==> (#[trigger] cs[j]).id@ != id,
            None => forall|j: int| 0 <= j < cs.len() ==> (#[trigger] cs[j]).id@ != id,
        },
    decreases cs.len(),
{
    if cs.len() > 0 {
        lemma_clarification_index(cs.drop_last(), id);
        match clarification_index(cs.drop_last(), id) {
            Some(i) => {
                assert forall|j: int| 0 <= j < i implies (#[trigger] cs[j]).id@ != id by {
                    assert(cs[j] == cs.drop_last()[j]);
                }
            },
            None => {
                assert forall|j: int| 0 <= j < cs.len() - 1 implies (#[trigger] cs[j]).id@ != id by {
                    assert(cs[j] == cs.drop_last()[j]);
                }
            },
        }
    }
}

impl SpecificationAgent {
    pub closed spec fn agent(&self) -> PlanAgentView {
        self.executor@
    }

    /// A specification agent working in `working_dir`.
    pub fn with_config(working_dir: &str, agent_config: &AgentConfig) -> (r: Result<Self, PilotError>)
        ensures
            r matches Ok(a) && a.agent() == configured_agent(working_dir@, *agent_config),
    {
        match PlanAgent::new(working_dir, agent_config) {
            Ok(executor) => Ok(SpecificationAgent { executor }),
            Err(e) => Err(e),
        }
    }

    /// The fallback specification for `description`.
    pub fn create_default_spec(&self, description: &str) -> (s: SpecArtifact)
        ensures
            is_default_spec(s, description@),
    {
        let mut stories: Vec<UserStory> = Vec::new();
        let mut scenarios: Vec<AcceptanceScenario> = Vec::new();
        scenarios.push(
            AcceptanceScenario {
                given: "the system is ready".to_string(),
                when: "the feature is used".to_string(),
                outcome: "the expected behavior occurs".to_string(),
            },
        );
        stories.push(
            UserStory {
                id: "US1".to_string(),
                title: take_chars(description, 50),
                priority: Priority::P1,
                description: description.to_string(),
                acceptance_scenarios: scenarios,
                independent_test: "Manual verification of the feature".to_string(),
            },
        );
        let mut req_desc = "System MUST ".to_string();
        push_str(&mut req_desc, description);
        let mut requirements: Vec<Requirement> = Vec::new();
        requirements.push(
            Requirement {
                id: "FR-001".to_string(),
                description: req_desc,
                needs_clarification: true,
                clarification_note: Some("Details need to be specified".to_string()),
            },
        );
        let mut options: Vec<ClarificationOption> = Vec::new();
        options.push(
            ClarificationOption {
                label: "Minimal implementation".to_string(),
                description: "Basic functionality only".to_string(),
                recommended: true,
            },
        );
        options.push(
            ClarificationOption {
                label: "Full implementation".to_string(),
                description: "Complete feature set".to_string(),
                recommended: false,
            },
        );
        let mut clarifications: Vec<Clarification> = Vec::new();
        clarifications.push(
            Clarification {
                id: "C1".to_string(),
                question: "Please provide more details about the requirements".to_string(),
                context: "The initial description may be incomplete".to_string(),
                options,
                resolved: false,
                answer: None,
            },
        );
        let mut criteria: Vec<String> = Vec::new();
        criteria.push("Feature works as expected".to_string());
        SpecArtifact { user_stories: stories, requirements, clarifications, success_criteria: criteria }
    }

    /// Records `answer` on the first clarification with id `clarification_id`;
    /// false when there is none.
    pub fn resolve_clarification(spec: &mut SpecArtifact, clarification_id: &str, answer: &str) -> (found: bool)
        ensures
            found == clarification_index(old(spec).clarifications@, clarification_id@) is Some,
            final(spec).user_stories == old(spec).user_stories,
            final(spec).requirements == old(spec).requirements,
            final(spec).success_criteria == old(spec).success_criteria,
            final(spec).clarifications@.len() == old(spec).clarifications@.len(),
            forall|j: int|
                0 <= j < old(spec).clarifications@.len() && clarification_index(old(spec).clarifications@, clarification_id@)
                    != Some(j) ==> #[trigger] final(spec).clarifications@[j] == old(spec).clarifications@[j],
            clarification_index(old(spec).clarifications@, clarification_id@) matches Some(i) ==> ({
                let c = final(spec).clarifications@[i];
                let o = old(spec).clarifications@[i];
                &&& c.id == o.id
                &&& c.question == o.question
                &&& c.context == o.context
                &&& c.options == o.options
                &&& c.resolved
                &&& c.answer matches Some(a) && a@ == answer@
            }),
    {
        let ghost cs = spec.clarifications@;
        proof {
            lemma_clarification_index(cs, clarification_id@);
        }
        let target = clarification_id.to_string();
        let mut i: usize = 0;
        while i < spec.clarifications.len()
            invariant
                0 <= i <= spec.clarifications.len(),
                cs == spec.clarifications@,
                *spec == *old(spec),
                target@ == clarification_id@,
                forall|j: int| 0 <= j < i ==> (#[trigger] cs[j]).id@ != clarification_id@,
            decreases spec.clarifications.len() - i,
        {
            if spec.clarifications[i].id == target {
                proof {
                    lemma_clarification_index(cs, clarification_id@);
                    match clarification_index(cs, clarification_id@) {
                        Some(k) => {
                            if k < i {
                                assert(cs[k].id@ != clarification_id@);
                            }
                            if k > i {
                                assert(cs[i as int].id@ != clarification_id@);
                            }
                        },
                        None => {
                            assert(cs[i as int].id@ != clarification_id@);
                        },
                    }
                }
                spec.clarifications[i].resolved = true;
                spec.clarifications[i].answer = Some(answer.to_string());
                return true;
            }
            i = i + 1;
        }
        false
    }
}

/// Breaks a specification and plan into phased tasks.
pub struct TaskDecomposer {
    executor: PlanAgent,
    quality_config: TaskDecompositionConfig,
    working_dir: String,
}

/// The phase name of each task, parallel to `all_tasks(phases)`.
pub open spec fn phase_of_tasks(phases: Seq<TaskPhase>) -> Seq<Seq<char>>
    decreases phases.len(),
{
    if phases.len() == 0 {
        Seq::empty()
    } else {
        phase_of_tasks(phases.drop_last()) + Seq::new(phases.last().tasks@.len(), |i: int| phases.last().name@)
    }
}

/// `t` is the mission task made from planned task `p` of phase `phase`.
pub open spec fn mission_task_from(t: Task, phase: Seq<char>, p: PlannedTask) -> bool {
    &&& t.id@ == p.id@
    &&& t.description@ == p.description@
    &&& t.phase matches Some(ph) && ph@ == phase
    &&& t.dependencies@ == p.dependencies@
    &&& t.agent_type == AgentType::Coder
    &&& t.affected_files@ == p.affected_files@
    &&& t.test_patterns@ == p.test_patterns@
    &&& t.status == TaskStatus::Pending
    &&& t.result is None
}

/// `label` followed by the items joined with commas, as a line; nothing
/// when there are no items.
pub open spec fn joined_line(label: Seq<char>, items: Seq<String>) -> Seq<char> {
    if items.len() == 0 {
        Seq::empty()
    } else {
        label + join(names(items), ", "@) + "\n"@
    }
}

/// The first three source-to-test mappings.
pub open spec fn shown_mappings(ms: Seq<ModuleTestMapping>) -> Seq<ModuleTestMapping> {
    if ms.len() <= 3 {
        ms
    } else {
        ms.take(3)
    }
}

/// The guidance on test patterns given to the model, from the project's
/// detected test layout; empty when nothing was detected.
pub open spec fn test_guidance(ts: TestStructure) -> Seq<char> {
    if ts.file_patterns@.len() == 0 && ts.module_test_mapping@.len() == 0 {
        Seq::empty()
    } else {
        "\n\n**Test Pattern Examples** (use these patterns for test_patterns field):\n"@ + (match ts.framework {
            Some(f) => "- Framework: "@ + f@ + "\n"@,
            None => Seq::empty(),
        }) + joined_line("- File patterns: "@, ts.file_patterns@) + joined_line("- Test directories: "@, ts.test_directories@)
            + mapping_lines(shown_mappings(ts.module_test_mapping@))
    }
}

pub open spec fn mapping_lines(ms: Seq<ModuleTestMapping>) -> Seq<char>
    decreases ms.len(),
{
    if ms.len() == 0 {
        Seq::empty()
    } else {
        mapping_lines(ms.drop_last()) + "- "@ + ms.last().source_file@ + " → "@ + join(
            names(ms.last().test_files@),
            ", "@,
        ) + "\n"@
    }
}

impl TaskDecomposer {
    pub closed spec fn agent(&self) -> PlanAgentView {
        self.executor@
    }

    pub closed spec fn config(&self) -> TaskDecompositionConfig {
        self.quality_config
    }

    pub closed spec fn dir(&self) -> Seq<char> {
        self.working_dir@
    }

    /// A decomposer working in `working_dir` with the given quality bounds.
    pub fn new(working_dir: &str, agent_config: &AgentConfig, quality_config: &TaskDecompositionConfig) -> (r: Result<
        Self,
        PilotError,
    >)
        ensures
            r matches Ok(d) && d.agent() == configured_agent(working_dir@, *agent_config) && d.config()
                == *quality_config && d.dir() == working_dir@,
    {
        match PlanAgent::new(working_dir, agent_config) {
            Ok(executor) => Ok(
                TaskDecomposer { executor, quality_config: *quality_config, working_dir: working_dir.to_string() },
            ),
            Err(e) => Err(e),
        }
    }

    /// The mission tasks for a task breakdown, phase by phase: each planned
    /// task becomes a pending coder task of its phase.
    pub fn to_mission_tasks(&self, artifact: &TasksArtifact) -> (v: Vec<Task>)
        ensures
            v@.len() == all_tasks(artifact.phases@).len(),
            forall|k: int|
                0 <= k < v@.len() ==> mission_task_from(
                    #[trigger] v@[k],
                    phase_of_tasks(artifact.phases@)[k],
                    all_tasks(artifact.phases@)[k],
                ),
    {
        let ghost ps = artifact.phases@;
        let mut v: Vec<Task> = Vec::new();
        let mut i: usize = 0;
        proof {
            assert(ps.subrange(0, 0) =~= Seq::<TaskPhase>::empty());
        }
        while i < artifact.phases.len()
            invariant
                0 <= i <= artifact.phases.len(),
                ps == artifact.phases@,
                v@.len() == all_tasks(ps.subrange(0, i as int)).len(),
                phase_of_tasks(ps.subrange(0, i as int)).len() == v@.len(),
                forall|k: int|
                    0 <= k < v@.len() ==> mission_task_from(
                        #[trigger] v@[k],
                        phase_of_tasks(ps.subrange(0, i as int))[k],
                        all_tasks(ps.subrange(0, i as int))[k],
                    ),
            decreases artifact.phases.len() - i,
        {
            let phase = &artifact.phases[i];
            let ghost before = all_tasks(ps.subrange(0, i as int));
            let ghost pbefore = phase_of_tasks(ps.subrange(0, i as int));
            proof {
                lemma_all_tasks_step(ps, i as int);
                assert(ps.subrange(0, i + 1).drop_last() =~= ps.subrange(0, i as int));
            }
            let ghost pafter = phase_of_tasks(ps.subrange(0, i + 1));
            let mut j: usize = 0;
            while j < phase.tasks.len()
                invariant
                    0 <= j <= phase.tasks.len(),
                    0 <= i < ps.len(),
                    phase == &ps[i as int],
                    all_tasks(ps.subrange(0, i + 1)) == before + phase.tasks@,
                    pafter == pbefore + Seq::new(phase.tasks@.len(), |q: int| phase.name@),
                    pbefore.len() == before.len(),
                    v@.len() == before.len() + j,
                    forall|k: int|
                        0 <= k < v@.len() ==> mission_task_from(
                            #[trigger] v@[k],
                            pafter[k],
                            (before + phase.tasks@)[k],
                        ),
                decreases phase.tasks.len() - j,
            {
                let t = &phase.tasks[j];
                let task = Task::new(t.id.as_str(), t.description.as_str()).with_phase(phase.name.clone()).with_dependencies(
                    clone_strings(&t.dependencies),
                ).with_agent_type(AgentType::Coder).with_affected_files(clone_strings(&t.affected_files)).with_test_patterns(
                    clone_strings(&t.test_patterns),
                );
                let ghost k0 = v@.len();
                v.push(task);
                proof {
                    assert((before + phase.tasks@)[k0 as int] == phase.tasks@[j as int]);
                    assert(pafter[k0 as int] == phase.name@);
                }
                j = j + 1;
            }
            i = i + 1;
        }
        proof {
            assert(ps.subrange(0, ps.len() as int) =~= ps);
        }
        v
    }

    fn push_joined_line(g: &mut String, label: &str, items: &Vec<String>)
        ensures
            final(g)@ == old(g)@ + joined_line(label@, items@),
    {
        if items.len() > 0 {
            push_str(g, label);
            let j = join_strings(items, ", ");
            push_str(g, j.as_str());
            push_str(g, "\n");
            proof {
                assert(names(items@) =~= items@.map_values(|x: String| x@));
            }
        }
    }

    fn push_mappings(g: &mut String, ms: &Vec<ModuleTestMapping>)
        ensures
            final(g)@ == old(g)@ + mapping_lines(shown_mappings(ms@)),
    {
        let ghost shown = shown_mappings(ms@);
        let limit: usize = if ms.len() <= 3 {
            ms.len()
        } else {
            3
        };
        let ghost start = g@;
        let mut i: usize = 0;
        proof {
            assert(shown.subrange(0, 0) =~= Seq::<ModuleTestMapping>::empty());
        }
        while i < limit
            invariant
                0 <= i <= limit,
                limit == shown.len(),
                limit <= ms@.len(),
                shown == shown_mappings(ms@),
                g@ == start + mapping_lines(shown.subrange(0, i as int)),
            decreases limit - i,
        {
            let m = &ms[i];
            push_str(g, "- ");
            push_str(g, m.source_file.as_str());
            push_str(g, " → ");
            let j = join_strings(&m.test_files, ", ");
            push_str(g, j.as_str());
            push_str(g, "\n");
            proof {
                assert(shown[i as int] == ms@[i as int]);
                assert(names(m.test_files@) =~= m.test_files@.map_values(|x: String| x@));
                assert(shown.subrange(0, i + 1).drop_last() =~= shown.subrange(0, i as int));
            }
            i = i + 1;
        }
        proof {
            assert(shown.subrange(0, limit as int) =~= shown);
        }
    }

    /// Guidance on test patterns from the detected test layout.
    pub fn build_test_pattern_guidance(&self, test_struct: &TestStructure) -> (s: String)
        ensures
            s@ == test_guidance(*test_struct),
    {
        if test_struct.file_patterns.len() == 0 && test_struct.module_test_mapping.len() == 0 {
            return String::new();
        }
        let mut g = String::new();
        push_str(&mut g, "\n\n**Test Pattern Examples** (use these patterns for test_patterns field):\n");
        match &test_struct.framework {
            Some(f) => {
                push_str(&mut g, "- Framework: ");
                push_str(&mut g, f.as_str());
                push_str(&mut g, "\n");
            },
            None => {},
        }
        Self::push_joined_line(&mut g, "- File patterns: ", &test_struct.file_patterns);
        Self::push_joined_line(&mut g, "- Test directories: ", &test_struct.test_directories);
        Self::push_mappings(&mut g, &test_struct.module_test_mapping);
        g
    }
}

/// Coordinates the planning components.
pub struct PlanningOrchestrator {
    working_dir: String,
    executor: PlanAgent,
    spec_agent: SpecificationAgent,
    task_decomposer: TaskDecomposer,
    validator: PlanValidator,
    ai_validation_enabled: bool,
}

/// The part of a path before its first `/`, when it has one.
pub open spec fn before_slash(s: Seq<char>) -> Option<Seq<char>>
    decreases s.len(),
{
    if s.len() == 0 {
        None
    } else if s[0] == '/' {
        Some(Seq::empty())
    } else {
        match before_slash(s.drop_first()) {
            Some(r) => Some(seq![s[0]] + r),
            None => None,
        }
    }
}

/// Top-level directories that are not packages of their own.
pub open spec fn shared_dir(d: Seq<char>) -> bool {
    d == "src"@ || d == "lib"@ || d == "test"@ || d == "tests"@ || d == ".github"@
}

/// The package a path belongs to: its top-level directory, unless that is
/// a shared one; none for a path without a directory.
pub open spec fn package_of(p: Seq<char>) -> Option<Seq<char>> {
    match before_slash(p) {
        Some(d) => if shared_dir(d) {
            None
        } else {
            Some(d)
        },
        None => None,
    }
}

pub open spec fn distinct_packages(a: Seq<char>, b: Seq<char>) -> bool {
    match (package_of(a), package_of(b)) {
        (Some(x), Some(y)) => x != y,
        _ => false,
    }
}

/// The affected files of the tasks, task by task.
pub open spec fn affected_of(ts: Seq<PlannedTask>) -> Seq<Seq<char>>
    decreases ts.len(),
{
    if ts.len() == 0 {
        Seq::empty()
    } else {
        affected_of(ts.drop_last()) + names(ts.last().affected_files@)
    }
}

/// The files span at least two packages.
pub open spec fn spans_packages(files: Seq<Seq<char>>) -> bool {
    exists|i: int, j: int| 0 <= i < files.len() && 0 <= j < files.len() && #[trigger] distinct_packages(files[i], files[j])
}

/// The isolation a plan gets: the plan's recommendation, one step stronger
/// when the tasks span packages, and a worktree whenever the risk is high.
pub open spec fn isolation_for(plan: PlanArtifact, tasks: TasksArtifact) -> IsolationMode {
    if plan.risk_assessment.overall_risk == RiskLevel::High {
        IsolationMode::Worktree
    } else if spans_packages(affected_of(all_tasks(tasks.phases@))) {
        escalated(plan.risk_assessment.recommended_isolation)
    } else {
        plan.risk_assessment.recommended_isolation
    }
}

fn package_of_path(p: &str) -> (r: Option<String>)
    ensures
        match r {
            Some(d) => package_of(p@) == Some(d@),
            None => package_of(p@) is None,
        },
{
    let cs = chars_of(p);
    let mut v: Vec<char> = Vec::new();
    let mut i: usize = 0;
    while i < cs.len()
        invariant
            0 <= i <= cs.len(),
            cs@ == p@,
            v@ == cs@.take(i as int),
            forall|k: int| 0 <= k < i ==> cs@[k] != '/',
        decreases cs.len() - i,
    {
        if cs[i] == '/' {
            proof {
                lemma_before_slash_at(cs@, i as int);
            }
            let d = string_from_chars(&v);
            let src = "src".to_string();
            let lib = "lib".to_string();
            let test = "test".to_string();
            let tests = "tests".to_string();
            let github = ".github".to_string();
            if d == src || d == lib || d == test || d == tests || d == github {
                return None;
            }
            return Some(d);
        }
        v.push(cs[i]);
        proof {
            assert(v@ =~= cs@.take(i + 1));
        }
        i = i + 1;
    }
    proof {
        lemma_no_slash(cs@);
    }
    None
}

proof fn lemma_before_slash_at(s: Seq<char>, i: int)
    requires
        0 <= i < s.len(),
        s[i] == '/',
        forall|k: int| 0 <= k < i ==> s[k] != '/',
    ensures
        before_slash(s) == Some(s.take(i)),
    decreases i,
{
    if i > 0 {
        lemma_before_slash_at(s.drop_first(), i - 1);
        assert(seq![s[0]] + s.drop_first().take(i - 1) =~= s.take(i));
    } else {
        assert(s.take(0) =~= Seq::<char>::empty());
    }
}

proof fn lemma_no_slash(s: Seq<char>)
    requires
        forall|k: int| 0 <= k < s.len() ==> s[k] != '/',
    ensures
        before_slash(s) is None,
    decreases s.len(),
{
    if s.len() > 0 {
        lemma_no_slash(s.drop_first());
    }
}

fn collect_affected(tasks: &TasksArtifact) -> (v: Vec<String>)
    ensures
        names(v@) == affected_of(all_tasks(tasks.phases@)),
{
    let ghost ps = tasks.phases@;
    let mut v: Vec<String> = Vec::new();
    let mut i: usize = 0;
    proof {
        assert(ps.subrange(0, 0) =~= Seq::<TaskPhase>::empty());
        assert(names(v@) =~= Seq::<Seq<char>>::empty());
    }
    while i < tasks.phases.len()
        invariant
            0 <= i <= tasks.phases.len(),
            ps == tasks.phases@,
            names(v@) == affected_of(all_tasks(ps.subrange(0, i as int))),
        decreases tasks.phases.len() - i,
    {
        let ts = &tasks.phases[i].tasks;
        let ghost before = all_tasks(ps.subrange(0, i as int));
        proof {
            lemma_all_tasks_step(ps, i as int);
            assert(before + ts@.subrange(0, 0) =~= before);
        }
        let mut j: usize = 0;
        while j < ts.len()
            invariant
                0 <= j <= ts.len(),
                0 <= i < ps.len(),
                ts@ == ps[i as int].tasks@,
                all_tasks(ps.subrange(0, i + 1)) == before + ts@,
                names(v@) == affected_of(before + ts@.subrange(0, j as int)),
            decreases ts.len() - j,
        {
            let fs = &ts[j].affected_files;
            let ghost start = v@;
            let mut k: usize = 0;
            while k < fs.len()
                invariant
                    0 <= k <= fs.len(),
                    v@ == start + fs@.subrange(0, k as int),
                decreases fs.len() - k,
            {
                v.push(fs[k].clone());
                proof {
                    assert(v@ =~= start + fs@.subrange(0, k + 1));
                }
                k = k + 1;
            }
            proof {
                let q = before + ts@.subrange(0, j + 1);
                assert(q.drop_last() =~= before + ts@.subrange(0, j as int));
                assert(q.last() == ts@[j as int]);
                assert(fs@.subrange(0, fs.len() as int) =~= fs@);
                assert(names(v@) =~= names(start) + names(fs@));
            }
            j = j + 1;
        }
        proof {
            assert(ts@.subrange(0, ts.len() as int) =~= ts@);
        }
        i = i + 1;
    }
    proof {
        assert(ps.subrange(0, ps.len() as int) =~= ps);
    }
    v
}

impl PlanningOrchestrator {
    pub closed spec fn agent(&self) -> PlanAgentView {
        self.executor@
    }

    pub closed spec fn ai_validation(&self) -> bool {
        self.ai_validation_enabled
    }

    pub closed spec fn dir(&self) -> Seq<char> {
        self.working_dir@
    }

    /// An orchestrator working in `working_dir`, its components all built
    /// from `agent_config`.
    pub fn new(
        working_dir: &str,
        ai_validation: bool,
        agent_config: &AgentConfig,
        task_decomposition_config: TaskDecompositionConfig,
    ) -> (r: Result<Self, PilotError>)
        ensures
            r matches Ok(o) && o.agent() == configured_agent(working_dir@, *agent_config) && o.ai_validation()
                == ai_validation && o.dir() == working_dir@ && o.spec_agent_spec().agent() == configured_agent(
                working_dir@,
                *agent_config,
            ) && o.decomposer_spec().config() == task_decomposition_config && o.decomposer_spec().dir() == working_dir@
                && o.validator_spec().dir() == working_dir@,
    {
        let executor = match PlanAgent::new(working_dir, agent_config) {
            Ok(a) => a,
            Err(e) => {
                return Err(e);
            },
        };
        let spec_agent = match SpecificationAgent::with_config(working_dir, agent_config) {
            Ok(a) => a,
            Err(e) => {
                return Err(e);
            },
        };
        let task_decomposer = match TaskDecomposer::new(working_dir, agent_config, &task_decomposition_config) {
            Ok(d) => d,
            Err(e) => {
                return Err(e);
            },
        };
        let validator = match PlanValidator::with_config(working_dir, agent_config) {
            Ok(v) => v,
            Err(e) => {
                return Err(e);
            },
        };
        Ok(
            PlanningOrchestrator {
                working_dir: working_dir.to_string(),
                executor,
                spec_agent,
                task_decomposer,
                validator,
                ai_validation_enabled: ai_validation,
            },
        )
    }

    pub closed spec fn spec_agent_spec(&self) -> &SpecificationAgent {
        &self.spec_agent
    }

    pub closed spec fn decomposer_spec(&self) -> &TaskDecomposer {
        &self.task_decomposer
    }

    pub closed spec fn validator_spec(&self) -> &PlanValidator {
        &self.validator
    }

    /// The planning agent.
    pub fn executor(&self) -> (a: &PlanAgent)
        ensures
            a@ == self.agent(),
    {
        &self.executor
    }

    /// The specification agent.
    pub fn spec_agent(&self) -> (a: &SpecificationAgent)
        ensures
            a == self.spec_agent_spec(),
    {
        &self.spec_agent
    }

    /// The task decomposer.
    pub fn task_decomposer(&self) -> (d: &TaskDecomposer)
        ensures
            d == self.decomposer_spec(),
    {
        &self.task_decomposer
    }

    /// The plan validator.
    pub fn validator(&self) -> (v: &PlanValidator)
        ensures
            v == self.validator_spec(),
    {
        &self.validator
    }

    /// Whether the tasks' affected files span more than one package (a
    /// top-level directory other than the shared ones).
    pub fn is_cross_package_change(&self, tasks: &TasksArtifact) -> (b: bool)
        ensures
            b == spans_packages(affected_of(all_tasks(tasks.phases@))),
    {
        let files = collect_affected(tasks);
        let ghost fv = names(files@);
        let mut first: Option<String> = None;
        let mut i: usize = 0;
        while i < files.len()
            invariant
                0 <= i <= files.len(),
                fv == names(files@),
                fv == affected_of(all_tasks(tasks.phases@)),
                match first {
                    None => forall|k: int| 0 <= k < i ==> package_of(#[trigger] fv[k]) is None,
                    Some(x) => (exists|k: int| 0 <= k < i && package_of(#[trigger] fv[k]) == Some(x@)) && forall|k: int|
                        0 <= k < i ==> (#[trigger] package_of(fv[k]) is None || package_of(fv[k]) == Some(x@)),
                },
            decreases files.len() - i,
        {
            let pkg = package_of_path(files[i].as_str());
            proof {
                assert(fv[i as int] == files@[i as int]@);
            }
            match pkg {
                Some(d) => match &first {
                    None => {
                        first = Some(d);
                    },
                    Some(x) => {
                        if !(d == *x) {
                            proof {
                                let k = choose|k: int| 0 <= k < i && package_of(#[trigger] fv[k]) == Some(x@);
                                assert(distinct_packages(fv[i as int], fv[k]));
                            }
                            return true;
                        }
                    },
                },
                None => {},
            }
            i = i + 1;
        }
        proof {
            assert forall|a: int, c: int| 0 <= a < fv.len() && 0 <= c < fv.len() implies !#[trigger] distinct_packages(
                fv[a],
                fv[c],
            ) by {}
        }
        false
    }

    /// The isolation the mission gets from its plan and tasks.
    pub fn determine_isolation(&self, plan: &PlanArtifact, tasks: &TasksArtifact) -> (m: IsolationMode)
        ensures
            m == isolation_for(*plan, *tasks),
    {
        let mut isolation = plan.risk_assessment.recommended_isolation;
        if self.is_cross_package_change(tasks) {
            isolation = isolation.escalate();
        }
        if plan.risk_assessment.overall_risk == RiskLevel::High {
            isolation = IsolationMode::Worktree;
        }
        isolation
    }
}

/// The isolation a plan gets is never weaker than the plan recommends, and
/// a high-risk plan always gets a worktree.
pub proof fn lemma_isolation_never_weaker(plan: PlanArtifact, tasks: TasksArtifact)
    ensures
        isolation_rank(isolation_for(plan, tasks)) >= isolation_rank(plan.risk_assessment.recommended_isolation),
        plan.risk_assessment.overall_risk == RiskLevel::High ==> isolation_for(plan, tasks) == IsolationMode::Worktree,
{
    lemma_escalate_monotone(plan.risk_assessment.recommended_isolation);
}

/// A high-level outline of a mission, phase by phase.
#[derive(Debug)]
pub struct MissionOutline {
    pub phases: Vec<OutlinePhase>,
    pub total_estimated_stories: usize,
    pub dependencies: Vec<PhaseDependency>,
}

/// One phase of an outline.
#[derive(Debug)]
pub struct OutlinePhase {
    pub name: String,
    pub description: String,
    pub estimated_stories: usize,
    pub key_features: Vec<String>,
}

/// The phases a phase depends on.
#[derive(Debug)]
pub struct PhaseDependency {
    pub phase: String,
    pub depends_on: Vec<String>,
}

/// Number of stories assumed for a phase whose estimate is missing.
pub fn default_stories() -> (n: usize)
    ensures
        n == 2,
{
    2
}

/// Plans large missions phase by phase through a planning orchestrator.
pub struct ChunkedPlanner {
    orchestrator: PlanningOrchestrator,
    config: ChunkedPlanningConfig,
}

/// The dependencies that name no task, as (task, dependency) pairs, task by task.
pub open spec fn unresolved_deps(all: Seq<PlannedTask>, ts: Seq<PlannedTask>) -> Seq<(Seq<char>, Seq<char>)>
    decreases ts.len(),
{
    if ts.len() == 0 {
        Seq::empty()
    } else {
        unresolved_deps(all, ts.drop_last()) + unresolved_of(all, ts.last().id@, names(ts.last().dependencies@))
    }
}

pub open spec fn unresolved_of(all: Seq<PlannedTask>, id: Seq<char>, deps: Seq<Seq<char>>) -> Seq<(Seq<char>, Seq<char>)>
    decreases deps.len(),
{
    if deps.len() == 0 {
        Seq::empty()
    } else {
        let rest = unresolved_of(all, id, deps.drop_last());
        if task_exists(all, deps.last()) {
            rest
        } else {
            rest.push((id, deps.last()))
        }
    }
}

/// All the specifications' contents, concatenated in order.
pub open spec fn merged_from(m: SpecArtifact, specs: Seq<SpecArtifact>) -> bool {
    &&& m.user_stories@ == specs.map_values(|s: SpecArtifact| s.user_stories@).flatten()
    &&& m.requirements@ == specs.map_values(|s: SpecArtifact| s.requirements@).flatten()
    &&& m.clarifications@ == specs.map_values(|s: SpecArtifact| s.clarifications@).flatten()
    &&& m.success_criteria@ == specs.map_values(|s: SpecArtifact| s.success_criteria@).flatten()
}

impl ChunkedPlanner {
    pub closed spec fn orchestrator_spec(&self) -> &PlanningOrchestrator {
        &self.orchestrator
    }

    pub closed spec fn settings(&self) -> ChunkedPlanningConfig {
        self.config
    }

    /// A chunked planner over a planning orchestrator with AI validation.
    pub fn new(
        working_dir: &str,
        agent_config: &AgentConfig,
        task_decomposition_config: TaskDecompositionConfig,
        chunked_config: ChunkedPlanningConfig,
    ) -> (r: Result<Self, PilotError>)
        ensures
            r matches Ok(p) && p.orchestrator_spec().ai_validation() && p.orchestrator_spec().dir() == working_dir@
                && p.orchestrator_spec().agent() == configured_agent(working_dir@, *agent_config) && p.settings()
                == chunked_config,
    {
        match PlanningOrchestrator::new(working_dir, true, agent_config, task_decomposition_config) {
            Ok(orchestrator) => Ok(ChunkedPlanner { orchestrator, config: chunked_config }),
            Err(e) => Err(e),
        }
    }

    /// The dependencies, across all phases, that name no task; each is
    /// worth a warning, none stops planning.
    pub fn validate_dependencies(&self, tasks: &TasksArtifact) -> (missing: Vec<DroppedDependency>)
        ensures
            dropped_views(missing@) == unresolved_deps(all_tasks(tasks.phases@), all_tasks(tasks.phases@)),
    {
        let ghost ps = tasks.phases@;
        let ghost all = all_tasks(ps);
        let mut missing: Vec<DroppedDependency> = Vec::new();
        let mut i: usize = 0;
        proof {
            assert(ps.subrange(0, 0) =~= Seq::<TaskPhase>::empty());
            assert(dropped_views(missing@) =~= unresolved_deps(all, all_tasks(ps.subrange(0, 0))));
        }
        while i < tasks.phases.len()
            invariant
                0 <= i <= tasks.phases.len(),
                ps == tasks.phases@,
                all == all_tasks(ps),
                dropped_views(missing@) == unresolved_deps(all, all_tasks(ps.subrange(0, i as int))),
            decreases tasks.phases.len() - i,
        {
            let ts = &tasks.phases[i].tasks;
            let ghost before = all_tasks(ps.subrange(0, i as int));
            proof {
                lemma_all_tasks_step(ps, i as int);
                assert(before + ts@.subrange(0, 0) =~= before);
            }
            let mut j: usize = 0;
            while j < ts.len()
                invariant
                    0 <= j <= ts.len(),
                    0 <= i < ps.len(),
                    ps == tasks.phases@,
                    all == all_tasks(ps),
                    ts@ == ps[i as int].tasks@,
                    all_tasks(ps.subrange(0, i + 1)) == before + ts@,
                    dropped_views(missing@) == unresolved_deps(all, before + ts@.subrange(0, j as int)),
                decreases ts.len() - j,
            {
                let task = &ts[j];
                let ghost ds = names(task.dependencies@);
                let ghost start = dropped_views(missing@);
                let mut k: usize = 0;
                proof {
                    assert(ds.subrange(0, 0) =~= Seq::<Seq<char>>::empty());
                    assert(start + unresolved_of(all, task.id@, ds.subrange(0, 0)) =~= start);
                }
                while k < task.dependencies.len()
                    invariant
                        0 <= k <= task.dependencies.len(),
                        ps == tasks.phases@,
                        all == all_tasks(ps),
                        ds == names(task.dependencies@),
                        dropped_views(missing@) == start + unresolved_of(all, task.id@, ds.subrange(0, k as int)),
                    decreases task.dependencies.len() - k,
                {
                    let dep = &task.dependencies[k];
                    let ghost b = dropped_views(missing@);
                    proof {
                        let q = ds.subrange(0, k + 1);
                        assert(q.drop_last() =~= ds.subrange(0, k as int));
                        assert(q.last() == dep@);
                    }
                    if !PlanValidator::task_id_exists(tasks, dep) {
                        missing.push(DroppedDependency { task_id: task.id.clone(), invalid_dep: dep.clone() });
                        proof {
                            assert(dropped_views(missing@) =~= b.push((task.id@, dep@)));
                        }
                    }
                    k = k + 1;
                }
                proof {
                    let q = before + ts@.subrange(0, j + 1);
                    assert(q.drop_last() =~= before + ts@.subrange(0, j as int));
                    assert(q.last() == ts@[j as int]);
                    assert(ds.subrange(0, task.dependencies.len() as int) =~= ds);
                }
                j = j + 1;
            }
            proof {
                assert(ts@.subrange(0, ts.len() as int) =~= ts@);
            }
            i = i + 1;
        }
        proof {
            assert(ps.subrange(0, ps.len() as int) =~= ps);
        }
        missing
    }

    /// One specification holding the stories, requirements, clarifications
    /// and success criteria of all of `specs`, in order.
    pub fn merge_specs(&self, specs: Vec<SpecArtifact>) -> (m: SpecArtifact)
        ensures
            merged_from(m, specs@),
    {
        let ghost sv = specs@;
        let mut specs = specs;
        let mut merged = SpecArtifact {
            user_stories: Vec::new(),
            requirements: Vec::new(),
            clarifications: Vec::new(),
            success_criteria: Vec::new(),
        };
        let mut k: usize = 0;
        let n = specs.len();
        proof {
            assert(sv.len() == n);
            assert(sv.skip(0) =~= sv);
            assert(sv.take(0) =~= Seq::<SpecArtifact>::empty());
            assert(merged_from(merged, sv.take(0)));
        }
        while specs.len() > 0
            invariant
                k + specs@.len() == sv.len(),
                sv.len() <= usize::MAX,
                specs@ == sv.skip(k as int),
                merged_from(merged, sv.take(k as int)),
            decreases specs.len(),
        {
            let mut s = specs.remove(0);
            proof {
                assert(s == sv[k as int]);
                assert(specs@ =~= sv.skip(k + 1));
                let p = sv.take(k + 1);
                assert(p =~= sv.take(k as int).push(s));
                assert(p.map_values(|x: SpecArtifact| x.user_stories@) =~= sv.take(k as int).map_values(
                    |x: SpecArtifact| x.user_stories@,
                ).push(s.user_stories@));
                assert(p.map_values(|x: SpecArtifact| x.requirements@) =~= sv.take(k as int).map_values(
                    |x: SpecArtifact| x.requirements@,
                ).push(s.requirements@));
                assert(p.map_values(|x: SpecArtifact| x.clarifications@) =~= sv.take(k as int).map_values(
                    |x: SpecArtifact| x.clarifications@,
                ).push(s.clarifications@));
                assert(p.map_values(|x: SpecArtifact| x.success_criteria@) =~= sv.take(k as int).map_values(
                    |x: SpecArtifact| x.success_criteria@,
                ).push(s.success_criteria@));
                sv.take(k as int).map_values(|x: SpecArtifact| x.user_stories@).lemma_flatten_push(s.user_stories@);
                sv.take(k as int).map_values(|x: SpecArtifact| x.requirements@).lemma_flatten_push(s.requirements@);
                sv.take(k as int).map_values(|x: SpecArtifact| x.clarifications@).lemma_flatten_push(s.clarifications@);
                sv.take(k as int).map_values(|x: SpecArtifact| x.success_criteria@).lemma_flatten_push(
                    s.success_criteria@,
                );
            }
            merged.user_stories.append(&mut s.user_stories);
            merged.requirements.append(&mut s.requirements);
            merged.clarifications.append(&mut s.clarifications);
            merged.success_criteria.append(&mut s.success_criteria);
            k = k + 1;
        }
        proof {
            assert(sv.take(k as int) =~= sv);
        }
        merged
    }
}

} // verus!

verus! {

/// The paths the evidence vouches for, or a pointer to the plan's paths
/// when it vouches for none.
pub open spec fn evidence_files_text(files: Seq<Seq<char>>) -> Seq<char> {
    if files.len() == 0 {
        "No specific files (use plan paths)"@
    } else {
        join(files, ", "@)
    }
}

/// The decomposition prompt: the specification and plan in markdown, the
/// evidence-backed files, the plan's existing and new paths, the existing
/// patterns, the test guidance and the requirements on the breakdown;
/// then the feedback from a failed attempt, if there is one.
pub open spec fn decomposition_prompt(
    spec_md: Seq<char>,
    plan_md: Seq<char>,
    files: Seq<char>,
    affected: Seq<char>,
    new_paths: Seq<char>,
    patterns: Seq<char>,
    guidance: Seq<char>,
    feedback: Option<Seq<char>>,
) -> Seq<char> {
    "## Task Decomposition\n\nBreak down the implementation into phases and tasks.\n\n**Specification**:\n"@ + spec_md
        + "\n\n**Implementation Plan**:\n"@ + plan_md + "\n\n**Evidence-Backed Files**: "@ + files
        + "\n\n**Plan Affected Paths** (existing): "@ + affected + "\n\n**Plan New Paths** (to create): "@ + new_paths
        + "\n\n**Existing Patterns**: "@ + patterns + "\n"@ + guidance
        + "\n"@
        + "---\n"@
        + "\n"@
        + "## Requirements\n"@
        + "\n"@
        + "1. **Phases**: Group related tasks (id, name, purpose, checkpoint)\n"@
        + "2. **Tasks**: Appropriate number per phase based on natural problem decomposition:\n"@
        + "   - id: Unique task identifier (e.g., T001, T002)\n"@
        + "   - description: Clear description of what to implement\n"@
        + "   - user_story: REQUIRED - Just the user story ID (e.g., \"US1\", \"US-001\"). NOT the full description, only the ID part.\n"@
        + "   - parallel: Whether this "@ + "task can run in parallel with others\n"@
        + "   - dependencies: List of task IDs this depends on\n"@
        + "   - affected_files: Use paths from evidence, affected paths, OR new paths - do NOT invent paths\n"@
        + "   - test_patterns: Patterns to run related tests\n"@
        + "3. **User Story Coverage**: Every user story ID listed above MUST appear in at least one task's user_story field. Match the ID exactly.\n"@
        + "4. **Dependencies**: Reference other task IDs (e.g., T001, T002)\n"@
        + "5. **Output Size**: Keep descriptions concise to avoid exceeding output limits"@
        + match feedback {
        Some(fb) => "\n\n## Quality Feedback\n\n"@ + fb + "\n\nFix these issues:"@,
        None => Seq::empty(),
    }
}

/// Lays the parts of a decomposition prompt out in order.
fn assemble_prompt(
    spec_md: &str,
    plan_md: &str,
    files: &str,
    affected: &str,
    new_paths: &str,
    patterns: &str,
    guidance: &str,
    feedback: Option<&str>,
) -> (p: String)
    ensures
        p@ == decomposition_prompt(spec_md@, plan_md@, files@, affected@, new_paths@, patterns@, guidance@, match feedback {
            Some(f) => Some(f@),
            None => None,
        }),
{
        let mut p = String::new();
        push_str(
            &mut p,
            "## Task Decomposition\n\nBreak down the implementation into phases and tasks.\n\n**Specification**:\n",
        );
        push_str(&mut p, spec_md);
        push_str(&mut p, "\n\n**Implementation Plan**:\n");
        push_str(&mut p, plan_md);
        push_str(&mut p, "\n\n**Evidence-Backed Files**: ");
        push_str(&mut p, files);
        push_str(&mut p, "\n\n**Plan Affected Paths** (existing): ");
        push_str(&mut p, affected);
        push_str(&mut p, "\n\n**Plan New Paths** (to create): ");
        push_str(&mut p, new_paths);
        push_str(&mut p, "\n\n**Existing Patterns**: ");
        push_str(&mut p, patterns);
        push_str(&mut p, "\n");
        push_str(&mut p, guidance);
        push_str(&mut p, "\n");
        push_str(&mut p, "---\n");
        push_str(&mut p, "\n");
        push_str(&mut p, "## Requirements\n");
        push_str(&mut p, "\n");
        push_str(&mut p, "1. **Phases**: Group related tasks (id, name, purpose, checkpoint)\n");
        push_str(&mut p, "2. **Tasks**: Appropriate number per phase based on natural problem decomposition:\n");
        push_str(&mut p, "   - id: Unique task identifier (e.g., T001, T002)\n");
        push_str(&mut p, "   - description: Clear description of what to implement\n");
        push_str(&mut p, "   - user_story: REQUIRED - Just the user story ID (e.g., \"US1\", \"US-001\"). NOT the full description, only the ID part.\n");
        push_str(&mut p, "   - parallel: Whether this ");
        push_str(&mut p, "task can run in parallel with others\n");
        push_str(&mut p, "   - dependencies: List of task IDs this depends on\n");
        push_str(&mut p, "   - affected_files: Use paths from evidence, affected paths, OR new paths - do NOT invent paths\n");
        push_str(&mut p, "   - test_patterns: Patterns to run related tests\n");
        push_str(&mut p, "3. **User Story Coverage**: Every user story ID listed above MUST appear in at least one task's user_story field. Match the ID exactly.\n");
        push_str(&mut p, "4. **Dependencies**: Reference other task IDs (e.g., T001, T002)\n");
        push_str(&mut p, "5. **Output Size**: Keep descriptions concise to avoid exceeding output limits");
        match feedback {
            Some(fb) => {
                push_str(&mut p, "\n\n## Quality Feedback\n\n");
                push_str(&mut p, fb);
                push_str(&mut p, "\n\nFix these issues:");
            },
            None => {},
        }
    proof {
        assert(p@ =~= decomposition_prompt(spec_md@, plan_md@, files@, affected@, new_paths@, patterns@, guidance@, match feedback {
            Some(f) => Some(f@),
            None => None,
        }));
    }
    p
}

impl TaskDecomposer {
    /// The prompt that asks for a task breakdown of `spec` under `plan`,
    /// grounded in the evidence's relevant files, existing patterns and
    /// test layout; `feedback` from a failed attempt is appended.
    pub fn build_prompt(
        &self,
        spec: &SpecArtifact,
        plan: &PlanArtifact,
        relevant_files: &Vec<String>,
        existing_patterns: &Vec<String>,
        test_structure: &TestStructure,
        feedback: Option<&str>,
    ) -> (p: String)
        ensures
            p@ == decomposition_prompt(
                crate::artifacts::spec_markdown(*spec),
                crate::artifacts::plan_markdown(*plan),
                evidence_files_text(names(relevant_files@)),
                join(names(plan.project_structure.affected_paths@), ", "@),
                join(names(plan.project_structure.new_paths@), ", "@),
                join(names(existing_patterns@), ", "@),
                test_guidance(*test_structure),
                match feedback {
                    Some(f) => Some(f@),
                    None => None,
                },
            ),
    {
        let files = if relevant_files.len() == 0 {
            "No specific files (use plan paths)".to_string()
        } else {
            join_strings(relevant_files, ", ")
        };
        proof {
            assert(relevant_files@.map_values(|x: String| x@) =~= names(relevant_files@));
            assert(plan.project_structure.affected_paths@.map_values(|x: String| x@) =~= names(
                plan.project_structure.affected_paths@,
            ));
            assert(plan.project_structure.new_paths@.map_values(|x: String| x@) =~= names(
                plan.project_structure.new_paths@,
            ));
            assert(existing_patterns@.map_values(|x: String| x@) =~= names(existing_patterns@));
        }
        let affected = join_strings(&plan.project_structure.affected_paths, ", ");
        let new_paths = join_strings(&plan.project_structure.new_paths, ", ");
        let patterns = join_strings(existing_patterns, ", ");
        let guidance = self.build_test_pattern_guidance(test_structure);
        let spec_md = spec.to_markdown();
        let plan_md = plan.to_markdown();
        assemble_prompt(
            spec_md.as_str(),
            plan_md.as_str(),
            files.as_str(),
            affected.as_str(),
            new_paths.as_str(),
            patterns.as_str(),
            guidance.as_str(),
            feedback,
        )
    }
}

} // verus!

verus! {

/// The prompt that asks for a specification of `description`, with the
/// evidence report `evidence_md`.
pub open spec fn specification_prompt(description: Seq<char>, evidence_md: Seq<char>) -> Seq<char> {
    "## Specification Creation Task\n\nCreate a feature specification for the following request.\n"@
        + "\n**User Request**: "@
        + description
        + "\n\n**Evidence from Codebase Analysis**:\n"@
        + evidence_md
        + "\n\n---\n\nCreate a specification with:\n\n"@
        + "1. **User Stories** (id, title, priority p1/p2/p3/p4, description, acceptance scenarios, independent test)\n"@
        + "   - p1 = MVP, p2 = important, p3+ = nice to have\n"@
        + "   - Each story must be independently testable\n\n"@
        + "2. **Requirements** (id, description, needs_clarification flag, optional clarification_note)\n"@
        + "   - Mark ambiguous requirements with needs_clarification: true\n\n"@
        + "3. **Clarifications** (id, question, context, options with label/description/recommended)\n"@
        + "   - Include specific questions for unclear aspects\n"@
        + "   - Each option should have a recommended flag\n\n"@
        + "4. **Success Criteria** (list of measurable outcomes)\n\n"@
        + "Follow the evidence to align with existing patterns in the codebase."@
}

/// The prompt that asks for an implementation plan for the specification
/// `spec_md`, with the evidence report `evidence_md`.
pub open spec fn planning_prompt(spec_md: Seq<char>, evidence_md: Seq<char>) -> Seq<char> {
    "## Implementation Planning\n\nCreate an implementation plan based on the specification.\n\n"@
        + "**Specification**:\n"@
        + spec_md
        + "\n\n**Evidence**:\n"@
        + evidence_md
        + "\n\nRequirements:\n- Align with existing patterns from evidence\n- Adhere to minimal scope\n"@
        + "- Provide clear risk assessment\n- Include practical rollback strategy\n\n"@
        + "**Project Structure**:\n- `affected_paths`: List existing files that will be modified\n"@
        + "- `new_paths`: List NEW files that will be CREATED (important for validation)"@
}

impl SpecificationAgent {
    /// The prompt for a specification of `description`, grounded in the
    /// evidence report `evidence_md` (already cut to the budget).
    pub fn build_spec_prompt(&self, description: &str, evidence_md: &str) -> (p: String)
        ensures
            p@ == specification_prompt(description@, evidence_md@),
    {
        let mut p = String::new();
        push_str(&mut p, "## Specification Creation Task\n\nCreate a feature specification for the following request.\n");
        push_str(&mut p, "\n**User Request**: ");
        push_str(&mut p, description);
        push_str(&mut p, "\n\n**Evidence from Codebase Analysis**:\n");
        push_str(&mut p, evidence_md);
        push_str(&mut p, "\n\n---\n\nCreate a specification with:\n\n");
        push_str(&mut p, "1. **User Stories** (id, title, priority p1/p2/p3/p4, description, acceptance scenarios, independent test)\n");
        push_str(&mut p, "   - p1 = MVP, p2 = important, p3+ = nice to have\n");
        push_str(&mut p, "   - Each story must be independently testable\n\n");
        push_str(&mut p, "2. **Requirements** (id, description, needs_clarification flag, optional clarification_note)\n");
        push_str(&mut p, "   - Mark ambiguous requirements with needs_clarification: true\n\n");
        push_str(&mut p, "3. **Clarifications** (id, question, context, options with label/description/recommended)\n");
        push_str(&mut p, "   - Include specific questions for unclear aspects\n");
        push_str(&mut p, "   - Each option should have a recommended flag\n\n");
        push_str(&mut p, "4. **Success Criteria** (list of measurable outcomes)\n\n");
        push_str(&mut p, "Follow the evidence to align with existing patterns in the codebase.");
        proof {
            assert(p@ =~= specification_prompt(description@, evidence_md@));
        }
        p
    }
}

impl PlanningOrchestrator {
    /// The prompt for an implementation plan of `spec`, grounded in the
    /// evidence report `evidence_md` (already cut to the budget).
    pub fn build_plan_prompt(&self, spec: &SpecArtifact, evidence_md: &str) -> (p: String)
        ensures
            p@ == planning_prompt(crate::artifacts::spec_markdown(*spec), evidence_md@),
    {
        let spec_md = spec.to_markdown();
        Self::lay_out_plan_prompt(spec_md.as_str(), evidence_md)
    }

    fn lay_out_plan_prompt(spec_md: &str, evidence_md: &str) -> (p: String)
        ensures
            p@ == planning_prompt(spec_md@, evidence_md@),
    {
        let mut p = String::new();
        push_str(&mut p, "## Implementation Planning\n\nCreate an implementation plan based on the specification.\n\n");
        push_str(&mut p, "**Specification**:\n");
        push_str(&mut p, spec_md);
        push_str(&mut p, "\n\n**Evidence**:\n");
        push_str(&mut p, evidence_md);
        push_str(&mut p, "\n\nRequirements:\n- Align with existing patterns from evidence\n- Adhere to minimal scope\n");
        push_str(&mut p, "- Provide clear risk assessment\n- Include practical rollback strategy\n\n");
        push_str(&mut p, "**Project Structure**:\n- `affected_paths`: List existing files that will be modified\n");
        push_str(&mut p, "- `new_paths`: List NEW files that will be CREATED (important for validation)");
        proof {
            assert(p@ =~= planning_prompt(spec_md@, evidence_md@));
        }
        p
    }
}

} // verus!

verus! {

/// `m` is the mission phase made from the planned phase `p`: its name,
/// its purpose as description, and the ids of its tasks.
pub open spec fn mission_phase_from(m: Phase, p: TaskPhase) -> bool {
    &&& m.name@ == p.name@
    &&& m.description@ == p.purpose@
    &&& names(m.task_ids@) == p.tasks@.map_values(|t: PlannedTask| t.id@)
}

/// The mission phases for the phases of a breakdown, in order.
fn mission_phases(phases: &Vec<TaskPhase>) -> (v: Vec<Phase>)
    ensures
        v@.len() == phases@.len(),
        forall|k: int| 0 <= k < v@.len() ==> mission_phase_from(#[trigger] v@[k], phases@[k]),
{
    let mut v: Vec<Phase> = Vec::new();
    let mut i: usize = 0;
    while i < phases.len()
        invariant
            0 <= i <= phases.len(),
            v@.len() == i,
            forall|k: int| 0 <= k < i ==> mission_phase_from(#[trigger] v@[k], phases@[k]),
        decreases phases.len() - i,
    {
        let p = &phases[i];
        let mut ids: Vec<String> = Vec::new();
        let mut j: usize = 0;
        while j < p.tasks.len()
            invariant
                0 <= j <= p.tasks.len(),
                names(ids@) == p.tasks@.subrange(0, j as int).map_values(|t: PlannedTask| t.id@),
            decreases p.tasks.len() - j,
        {
            let ghost before = names(ids@);
            ids.push(p.tasks[j].id.clone());
            proof {
                assert(names(ids@) =~= before.push(p.tasks@[j as int].id@));
                assert(p.tasks@.subrange(0, j + 1).map_values(|t: PlannedTask| t.id@) =~= p.tasks@.subrange(
                    0,
                    j as int,
                ).map_values(|t: PlannedTask| t.id@).push(p.tasks@[j as int].id@));
            }
            j = j + 1;
        }
        proof {
            assert(p.tasks@.subrange(0, p.tasks.len() as int) =~= p.tasks@);
        }
        v.push(Phase { name: p.name.clone(), description: p.purpose.clone(), task_ids: ids });
        i = i + 1;
    }
    v
}

impl PlanningOrchestrator {
    /// Fills `mission` from a planning outcome: its tasks and phases from
    /// the breakdown `tasks`, and its isolation from the recommendation;
    /// everything else is kept.
    pub fn apply_to_mission(&self, mission: &mut Mission, tasks: &TasksArtifact, recommended_isolation: IsolationMode)
        ensures
            final(mission).tasks@.len() == all_tasks(tasks.phases@).len(),
            forall|k: int|
                0 <= k < final(mission).tasks@.len() ==> mission_task_from(
                    #[trigger] final(mission).tasks@[k],
                    phase_of_tasks(tasks.phases@)[k],
                    all_tasks(tasks.phases@)[k],
                ),
            final(mission).phases@.len() == tasks.phases@.len(),
            forall|k: int|
                0 <= k < final(mission).phases@.len() ==> mission_phase_from(
                    #[trigger] final(mission).phases@[k],
                    tasks.phases@[k],
                ),
            final(mission).isolation == recommended_isolation,
            final(mission).id == old(mission).id,
            final(mission).description == old(mission).description,
            final(mission).status == old(mission).status,
            final(mission).branch == old(mission).branch,
            final(mission).learnings == old(mission).learnings,
    {
        mission.tasks = self.task_decomposer.to_mission_tasks(tasks);
        mission.phases = mission_phases(&tasks.phases);
        mission.isolation = recommended_isolation;
    }
}

} // verus!

verus! {

/// `p` lies under the top-level directory `d`, which is not one of the
/// shared directories `src`, `lib`, `test`, `tests` and `.github`.
pub open spec fn under_package_dir(p: Seq<char>, d: Seq<char>) -> bool {
    &&& exists|r: Seq<char>| p == d + "/"@ + r
    &&& !d.contains('/')
    &&& d != "src"@ && d != "lib"@ && d != "test"@ && d != "tests"@ && d != ".github"@
}

proof fn lemma_before_slash_split(p: Seq<char>)
    ensures
        before_slash(p) matches Some(x) ==> {
            &&& x.len() < p.len()
            &&& p[x.len() as int] == '/'
            &&& p.take(x.len() as int) == x
            &&& !x.contains('/')
        },
    decreases p.len(),
{
    if p.len() > 0 && p[0] != '/' {
        lemma_before_slash_split(p.drop_first());
        if let Some(r) = before_slash(p.drop_first()) {
            let x = seq![p[0]] + r;
            assert(p.take(x.len() as int) =~= seq![p[0]] + p.drop_first().take(r.len() as int));
            assert forall|k: int| 0 <= k < x.len() implies x[k] != '/' by {
                if k > 0 {
                    assert(x[k] == r[k - 1]);
                    assert(!r.contains('/'));
                    if r[k - 1] == '/' {
                        assert(r.contains('/'));
                    }
                }
            }
        }
    } else if p.len() > 0 {
        assert(p.take(0) =~= Seq::<char>::empty());
    }
}

/// A path's package is its top-level directory, unless that is one of the
/// shared directories `src`, `lib`, `test`, `tests` and `.github`; a path
/// with no directory belongs to no package.
pub proof fn lemma_package_of_path(d: Seq<char>, r: Seq<char>)
    requires
        !d.contains('/'),
    ensures
        package_of(d + "/"@ + r) == if d == "src"@ || d == "lib"@ || d == "test"@ || d == "tests"@ || d == ".github"@ {
            None
        } else {
            Some(d)
        },
        package_of(d) is None,
{
    reveal_strlit("/");
    let p = d + "/"@ + r;
    assert forall|k: int| 0 <= k < d.len() implies p[k] != '/' by {
        assert(p[k] == d[k]);
        if d[k] == '/' {
            assert(d.contains('/'));
        }
    }
    assert(p[d.len() as int] == '/');
    lemma_before_slash_at(p, d.len() as int);
    assert(p.take(d.len() as int) =~= d);
    assert forall|k: int| 0 <= k < d.len() implies d[k] != '/' by {
        if d[k] == '/' {
            assert(d.contains('/'));
        }
    }
    lemma_no_slash(d);
}

/// A change spans packages exactly when two of its files lie under
/// different top-level directories that are not shared ones.
pub proof fn lemma_cross_package(files: Seq<Seq<char>>)
    ensures
        spans_packages(files) <==> exists|i: int, j: int, d1: Seq<char>, d2: Seq<char>|
            0 <= i < files.len() && 0 <= j < files.len() && #[trigger] under_package_dir(files[i], d1)
                && #[trigger] under_package_dir(files[j], d2) && d1 != d2,
{
    if spans_packages(files) {
        let (i, j) = choose|i: int, j: int| 0 <= i < files.len() && 0 <= j < files.len() && #[trigger] distinct_packages(files[i], files[j]);
        lemma_before_slash_split(files[i]);
        lemma_before_slash_split(files[j]);
        let d1 = package_of(files[i])->Some_0;
        let d2 = package_of(files[j])->Some_0;
        assert(files[i] == d1 + "/"@ + files[i].skip(d1.len() as int + 1)) by {
            reveal_strlit("/");
            assert(files[i] =~= files[i].take(d1.len() as int) + "/"@ + files[i].skip(d1.len() as int + 1));
        }
        assert(files[j] == d2 + "/"@ + files[j].skip(d2.len() as int + 1)) by {
            reveal_strlit("/");
            assert(files[j] =~= files[j].take(d2.len() as int) + "/"@ + files[j].skip(d2.len() as int + 1));
        }
        assert(under_package_dir(files[i], d1));
        assert(under_package_dir(files[j], d2));
    }
    if exists|i: int, j: int, d1: Seq<char>, d2: Seq<char>|
        0 <= i < files.len() && 0 <= j < files.len() && #[trigger] under_package_dir(files[i], d1)
            && #[trigger] under_package_dir(files[j], d2) && d1 != d2 {
        let (i, j, d1, d2) = choose|i: int, j: int, d1: Seq<char>, d2: Seq<char>|
            0 <= i < files.len() && 0 <= j < files.len() && #[trigger] under_package_dir(files[i], d1)
                && #[trigger] under_package_dir(files[j], d2) && d1 != d2;
        let r1 = choose|r: Seq<char>| files[i] == d1 + "/"@ + r;
        let r2 = choose|r: Seq<char>| files[j] == d2 + "/"@ + r;
        lemma_package_of_path(d1, r1);
        lemma_package_of_path(d2, r2);
        assert(distinct_packages(files[i], files[j]));
    }
}

} // verus!
